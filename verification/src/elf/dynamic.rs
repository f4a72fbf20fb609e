//! The dynamic section and the table of relocations with addend that it names.

use vstd::prelude::*;
use super::error::ElfError;
use super::util::{read_i64, read_u64, spec_read_i64, spec_read_u64};

verus! {

/// Type of the tag of a dynamic entry.
pub type DynamicTagType = i64;

/// Tag of the entry that ends the dynamic section.
pub const DT_NULL: DynamicTagType = 0;

/// Tag of the entry that holds the position of the relocation table, relative to
/// the start of the image.
pub const DT_RELA: DynamicTagType = 7;

/// Tag of the entry that holds the size in bytes of the relocation table.
pub const DT_RELASZ: DynamicTagType = 8;

/// Tag of the entry that holds the distance in bytes between two relocations.
pub const DT_RELAENT: DynamicTagType = 9;

/// Type of the info field of a relocation.
pub type RelaInfoType = u64;

/// Info value of a relocation that stores a symbol's address.
pub const R_RISCV_64: RelaInfoType = 2;

/// Info value of a relocation that stores the image's base plus the addend.
pub const R_RISCV_RELATIVE: RelaInfoType = 3;

/// Size in bytes of a dynamic entry.
pub const DYNAMIC_SIZE: usize = 16;

/// Size in bytes of what a relocation holds.
pub const RELA_SIZE: usize = 24;

/// An entry of the dynamic section.
#[derive(Clone, Copy, Debug, PartialEq, Eq, Structural)]
pub struct Dynamic {
    pub tag: DynamicTagType,
    pub val: u64,
}

/// Where the relocations lie: `size` bytes from `address` on, counted from the
/// start of the image, one relocation every `entry_size` bytes.
#[derive(Clone, Copy, Debug, PartialEq, Eq, Structural)]
pub struct RelocationTable {
    pub address: u64,
    pub size: u64,
    pub entry_size: u64,
}

/// A relocation with addend.
#[derive(Clone, Copy, Debug, PartialEq, Eq, Structural)]
pub struct ElfRela {
    pub offset: u64,
    pub info: RelaInfoType,
    pub addend: i64,
}

/// A walk over the relocations of a table, in table order.
pub struct RelocationTableIterator<'a> {
    relocation_table: RelocationTable,
    image: &'a [u8],
    next_index: u64,
}

impl ElfRela {
    /// The relocation that the 24 bytes from `at` on encode.
    pub open spec fn decode(bytes: Seq<u8>, at: int) -> ElfRela {
        ElfRela {
            offset: spec_read_u64(bytes, at),
            info: spec_read_u64(bytes, at + 8),
            addend: spec_read_i64(bytes, at + 16),
        }
    }

    /// Decodes the relocation that starts at `at`.
    pub fn from_bytes(bytes: &[u8], at: usize) -> (rela: ElfRela)
        requires
            at + RELA_SIZE <= bytes.len(),
        ensures
            rela == ElfRela::decode(bytes@, at as int),
    {
        ElfRela {
            offset: read_u64(bytes, at),
            info: read_u64(bytes, at + 8),
            addend: read_i64(bytes, at + 16),
        }
    }
}

/// Dividing and multiplying back rounds down by less than the divisor.
proof fn lemma_divide_and_multiply(a: int, b: int)
    by (nonlinear_arith)
    requires
        0 <= a,
        0 < b,
    ensures
        0 <= a / b,
        (a / b) * b <= a,
        a < (a / b + 1) * b,
{
}

/// Multiplying by a positive number keeps the order.
proof fn lemma_multiply_keeps_order(k: int, q: int, b: int)
    by (nonlinear_arith)
    requires
        0 < b,
    ensures
        k <= q ==> k * b <= q * b,
        k > q ==> k * b >= (q + 1) * b,
{
}

impl RelocationTable {
    /// The number of relocations: one starts every `entry_size` bytes, as long
    /// as that start lies before the end of the table.
    pub open spec fn entry_count(&self) -> int {
        if self.entry_size == 0 || self.size == 0 {
            0
        } else {
            (self.size - 1) / (self.entry_size as int) + 1
        }
    }

    /// Where relocation `index` starts, in bytes from the start of the image.
    pub open spec fn entry_position(&self, index: int) -> int {
        self.address + index * self.entry_size
    }

    /// Whether the table can be walked in an image of `image_len` bytes. A table
    /// with an entry size of 0 has no next entry; one whose last relocation does
    /// not lie inside the image cannot be read.
    pub open spec fn walk_check(&self, image_len: nat) -> Result<(), ElfError> {
        if self.entry_size == 0 {
            Err(ElfError::InvalidFormat)
        } else if self.size > 0 && self.entry_position(self.entry_count() - 1) + RELA_SIZE
            > image_len {
            Err(ElfError::BufferOverflow)
        } else {
            Ok(())
        }
    }

    /// Relocation `index` of the table as `image` holds it.
    pub open spec fn entry(&self, image: Seq<u8>, index: int) -> ElfRela {
        ElfRela::decode(image, self.entry_position(index))
    }

    /// The relocations of the table as `image` holds them, in table order.
    pub open spec fn entries(&self, image: Seq<u8>) -> Seq<ElfRela> {
        Seq::new(self.entry_count() as nat, |index: int| self.entry(image, index))
    }

    /// Relocation `index` exists exactly when it starts before the end of the
    /// table.
    pub proof fn lemma_entry_count(&self, index: int)
        requires
            self.entry_size > 0,
            0 <= index,
        ensures
            0 <= self.entry_count(),
            index < self.entry_count() <==> index * self.entry_size < self.size,
    {
        if self.size > 0 {
            let last = (self.size - 1) / (self.entry_size as int);
            lemma_divide_and_multiply(self.size - 1, self.entry_size as int);
            lemma_multiply_keeps_order(index, last, self.entry_size as int);
        } else {
            lemma_multiply_keeps_order(index, -1, self.entry_size as int);
        }
    }

    /// A table has no more relocations than bytes.
    pub proof fn lemma_entry_count_bound(&self)
        ensures
            0 <= self.entry_count() <= self.size,
    {
        if self.entry_size > 0 && self.size > 0 {
            let sz = self.size - 1;
            let es = self.entry_size as int;
            assert(0 <= sz / es <= sz) by (nonlinear_arith)
                requires
                    0 <= sz,
                    0 < es,
            ;
        }
    }

    /// In a table that can be walked, every relocation lies inside the image.
    pub proof fn lemma_entry_inside(&self, image_len: nat, index: int)
        requires
            self.walk_check(image_len) is Ok,
            0 <= index < self.entry_count(),
        ensures
            0 <= index * self.entry_size < self.size,
            self.entry_position(index) + RELA_SIZE <= image_len,
    {
        self.lemma_entry_count(index);
        lemma_multiply_keeps_order(index, self.entry_count() - 1, self.entry_size as int);
        lemma_multiply_keeps_order(-1, index, self.entry_size as int);
    }

    /// Tells whether the table can be walked in an image of `image_len` bytes.
    /// Fails with `InvalidFormat` for an entry size of 0, and with
    /// `BufferOverflow` when a relocation does not lie inside the image.
    pub fn check_walk(&self, image_len: usize) -> (checked: Result<(), ElfError>)
        ensures
            checked == self.walk_check(image_len as nat),
    {
        if self.entry_size == 0 {
            return Err(ElfError::InvalidFormat);
        }
        if self.size == 0 {
            return Ok(());
        }
        let last: u64 = (self.size - 1) / self.entry_size;
        proof {
            lemma_divide_and_multiply(self.size - 1, self.entry_size as int);
        }
        let last_start: u64 = last * self.entry_size;
        let inside = match self.address.checked_add(last_start) {
            Some(position) => match position.checked_add(RELA_SIZE as u64) {
                Some(end) => end <= image_len as u64,
                None => false,
            },
            None => false,
        };
        if inside {
            Ok(())
        } else {
            Err(ElfError::BufferOverflow)
        }
    }

    /// Tells whether the table has a relocation `index`. A table with an entry
    /// size of 0 has none.
    pub fn has_entry(&self, index: u64) -> (present: bool)
        ensures
            present == (index < self.entry_count()),
    {
        if self.entry_size == 0 {
            return false;
        }
        proof {
            self.lemma_entry_count(index as int);
        }
        match index.checked_mul(self.entry_size) {
            Some(start) => start < self.size,
            None => false,
        }
    }

    /// Reads relocation `index` of the table from `image`.
    pub fn read_entry(&self, image: &[u8], index: u64) -> (rela: ElfRela)
        requires
            self.walk_check(image@.len()) is Ok,
            index < self.entry_count(),
        ensures
            rela == self.entry(image@, index as int),
    {
        proof {
            self.lemma_entry_inside(image@.len(), index as int);
        }
        let length: usize = image.len();
        let position: u64 = self.address + index * self.entry_size;
        ElfRela::from_bytes(image, position as usize)
    }

    /// Starts a walk over the relocations that `image` holds for this table.
    /// Fails with `InvalidFormat` for an entry size of 0, and with
    /// `BufferOverflow` when a relocation does not lie inside the image.
    pub fn into_iter<'a>(&self, image: &'a [u8]) -> (walk: Result<
        RelocationTableIterator<'a>,
        ElfError,
    >)
        ensures
            match walk {
                Ok(walk) => self.walk_check(image@.len()) is Ok && walk.entries() == self.entries(
                    image@,
                ) && walk.position() == 0,
                Err(e) => self.walk_check(image@.len()) == Err::<(), ElfError>(e),
            },
    {
        match self.check_walk(image.len()) {
            Ok(_) => {
                proof {
                    self.lemma_entry_count(0);
                }
                Ok(RelocationTableIterator { relocation_table: *self, image, next_index: 0 })
            },
            Err(e) => Err(e),
        }
    }
}

/// Whether `result` is a value that folding the first `count` of `entries`
/// with `f`, from `init` on, can give.
pub open spec fn folds_to<B, F: Fn(B, ElfRela) -> B>(
    f: F,
    entries: Seq<ElfRela>,
    init: B,
    count: int,
    result: B,
) -> bool
    decreases count,
{
    if count <= 0 {
        result == init
    } else {
        exists|before: B|
            folds_to(f, entries, init, count - 1, before) && #[trigger] call_ensures(
                f,
                (before, entries[count - 1]),
                result,
            )
    }
}

/// Folding one entry more: from a value that the entries before can give, to
/// one that `f` can give for it and the next entry.
pub proof fn lemma_fold_one_more<B, F: Fn(B, ElfRela) -> B>(
    f: F,
    entries: Seq<ElfRela>,
    init: B,
    count: int,
    before: B,
    result: B,
)
    requires
        0 <= count < entries.len(),
        folds_to(f, entries, init, count, before),
        call_ensures(f, (before, entries[count]), result),
    ensures
        folds_to(f, entries, init, count + 1, result),
{
    let next = count + 1;
    assert(folds_to(f, entries, init, next - 1, before) && call_ensures(
        f,
        (before, entries[next - 1]),
        result,
    ));
}

impl RelocationTable {
    /// Folds the relocations that `image` holds for this table, in table
    /// order, with `f`, from `init` on. Fails like `check_walk` when the table
    /// cannot be walked in the image; `f` is then not called.
    pub fn fold_inner<B, F: Fn(B, ElfRela) -> B>(&self, image: &[u8], init: B, f: F) -> (folded:
        Result<B, ElfError>)
        requires
            forall|before: B, index: int|
                0 <= index < self.entry_count() && #[trigger] folds_to(
                    f,
                    self.entries(image@),
                    init,
                    index,
                    before,
                ) ==> call_requires(f, (before, self.entries(image@)[index])),
        ensures
            match folded {
                Ok(result) => self.walk_check(image@.len()) is Ok && folds_to(
                    f,
                    self.entries(image@),
                    init,
                    self.entry_count(),
                    result,
                ),
                Err(e) => self.walk_check(image@.len()) == Err::<(), ElfError>(e),
            },
    {
        match self.check_walk(image.len()) {
            Ok(_) => Ok(self.fold_walkable(image, init, f)),
            Err(e) => Err(e),
        }
    }

    /// Folds the relocations of a table that can be walked in `image`.
    fn fold_walkable<B, F: Fn(B, ElfRela) -> B>(&self, image: &[u8], init: B, f: F) -> (result: B)
        requires
            self.walk_check(image@.len()) is Ok,
            forall|before: B, index: int|
                0 <= index < self.entry_count() && #[trigger] folds_to(
                    f,
                    self.entries(image@),
                    init,
                    index,
                    before,
                ) ==> call_requires(f, (before, self.entries(image@)[index])),
        ensures
            folds_to(f, self.entries(image@), init, self.entry_count(), result),
    {
        let ghost entries = self.entries(image@);
        proof {
            self.lemma_entry_count(0);
        }
        let mut index: u64 = 0;
        let mut acc = init;
        while self.has_entry(index)
            invariant
                self.walk_check(image@.len()) is Ok,
                self.entry_size > 0,
                entries == self.entries(image@),
                0 <= index <= self.entry_count(),
                folds_to(f, entries, init, index as int, acc),
                forall|before: B, index: int|
                    0 <= index < self.entry_count() && #[trigger] folds_to(
                        f,
                        entries,
                        init,
                        index,
                        before,
                    ) ==> call_requires(f, (before, entries[index])),
            decreases self.entry_count() - index,
        {
            let rela = self.read_entry(image, index);
            let ghost before = acc;
            acc = f(acc, rela);
            proof {
                self.lemma_entry_count_bound();
                assert(folds_to(f, entries, init, index as int, before));
                assert(call_ensures(f, (before, entries[index as int]), acc));
                lemma_fold_one_more(f, entries, init, index as int, before, acc);
            }
            index = index + 1;
        }
        acc
    }
}

impl<'a> RelocationTableIterator<'a> {
    #[verifier::type_invariant]
    spec fn well_formed(&self) -> bool {
        &&& self.relocation_table.walk_check(self.image@.len()) is Ok
        &&& self.next_index <= self.relocation_table.entry_count()
    }

    /// Folds all relocations of the table that is walked, those that the walk
    /// has handed out too, with `f`, from `init` on.
    pub fn fold<B, F: Fn(B, ElfRela) -> B>(self, init: B, f: F) -> (result: B)
        requires
            forall|before: B, index: int|
                0 <= index < self.entries().len() && #[trigger] folds_to(
                    f,
                    self.entries(),
                    init,
                    index,
                    before,
                ) ==> call_requires(f, (before, self.entries()[index])),
        ensures
            folds_to(f, self.entries(), init, self.entries().len() as int, result),
    {
        proof {
            use_type_invariant(&self);
            self.relocation_table.lemma_entry_count(0);
            assert(self.entries() == self.relocation_table.entries(self.image@));
            assert(self.entries().len() == self.relocation_table.entry_count());
        }
        self.relocation_table.fold_walkable(self.image, init, f)
    }

    /// All relocations of the table that is walked, in table order.
    pub closed spec fn entries(&self) -> Seq<ElfRela> {
        self.relocation_table.entries(self.image@)
    }

    /// The number of relocations that the walk has handed out.
    pub closed spec fn position(&self) -> int {
        self.next_index as int
    }

    /// Hands out the next relocation, or `None` when all were handed out.
    pub fn next(&mut self) -> (rela: Option<ElfRela>)
        ensures
            final(self).entries() == old(self).entries(),
            0 <= old(self).position() <= old(self).entries().len(),
            match rela {
                Some(rela) => old(self).position() < old(self).entries().len() && rela == old(
                    self,
                ).entries()[old(self).position()] && final(self).position() == old(self).position()
                    + 1,
                None => old(self).position() == old(self).entries().len() && final(self).position()
                    == old(self).position(),
            },
    {
        proof {
            use_type_invariant(&*self);
        }
        if !self.relocation_table.has_entry(self.next_index) {
            return None;
        }
        let rela = self.relocation_table.read_entry(self.image, self.next_index);
        self.next_index = self.next_index + 1;
        Some(rela)
    }
}

impl Dynamic {
    /// The dynamic entry that the 16 bytes from `at` on encode.
    pub open spec fn decode(bytes: Seq<u8>, at: int) -> Dynamic {
        Dynamic { tag: spec_read_i64(bytes, at), val: spec_read_u64(bytes, at + 8) }
    }

    /// Decodes the dynamic entry that starts at `at`.
    pub fn from_bytes(bytes: &[u8], at: usize) -> (entry: Dynamic)
        requires
            at + DYNAMIC_SIZE <= bytes.len(),
        ensures
            entry == Dynamic::decode(bytes@, at as int),
    {
        Dynamic { tag: read_i64(bytes, at), val: read_u64(bytes, at + 8) }
    }

    /// Entry `index` of a dynamic section.
    pub open spec fn entry(section: Seq<u8>, index: int) -> Dynamic {
        Dynamic::decode(section, DYNAMIC_SIZE * index)
    }

    /// Whether entry `end` is the first one with tag `DT_NULL`, and lies inside
    /// the section like all before it.
    pub open spec fn is_terminator(section: Seq<u8>, end: int) -> bool {
        &&& 0 <= end
        &&& DYNAMIC_SIZE * (end + 1) <= section.len()
        &&& Dynamic::entry(section, end).tag == DT_NULL
        &&& forall|i: int| 0 <= i < end ==> (#[trigger] Dynamic::entry(section, i)).tag != DT_NULL
    }

    /// Whether the section is ended by a `DT_NULL` entry.
    pub open spec fn has_terminator(section: Seq<u8>) -> bool {
        exists|end: int| Dynamic::is_terminator(section, end)
    }

    /// Index of the entry that ends the section.
    pub open spec fn terminator(section: Seq<u8>) -> int {
        choose|end: int| Dynamic::is_terminator(section, end)
    }

    /// The value of the last entry with tag `tag` among the first `end` entries,
    /// or 0 when there is none.
    pub open spec fn last_value(section: Seq<u8>, end: int, tag: DynamicTagType) -> u64
        decreases end,
    {
        if end <= 0 {
            0
        } else if Dynamic::entry(section, end - 1).tag == tag {
            Dynamic::entry(section, end - 1).val
        } else {
            Dynamic::last_value(section, end - 1, tag)
        }
    }

    /// Whether one of the first `end` entries has tag `tag`.
    pub open spec fn has_tag(section: Seq<u8>, end: int, tag: DynamicTagType) -> bool
        decreases end,
    {
        if end <= 0 {
            false
        } else {
            Dynamic::entry(section, end - 1).tag == tag || Dynamic::has_tag(section, end - 1, tag)
        }
    }

    /// What a dynamic section says about relocations. `positioned` tells
    /// whether it gives the position of a table, `address` which one, and
    /// `size` the size that it gives, or 0 when it gives none. There are no
    /// relocations where neither position nor size is given, a table where
    /// both are, and a malformed section where only one is.
    pub open spec fn table_from(positioned: bool, address: u64, size: u64, entry_size: u64) -> Result<
        Option<RelocationTable>,
        ElfError,
    > {
        if !positioned && size == 0 {
            Ok(None)
        } else if !positioned || size == 0 {
            Err(ElfError::InvalidFormat)
        } else {
            Ok(Some(RelocationTable { address, size, entry_size }))
        }
    }

    /// The relocation table that a dynamic section names. A section without a
    /// `DT_NULL` entry inside it is malformed.
    pub open spec fn relocations_of(section: Seq<u8>) -> Result<Option<RelocationTable>, ElfError> {
        if Dynamic::has_terminator(section) {
            let end = Dynamic::terminator(section);
            Dynamic::table_from(
                Dynamic::has_tag(section, end, DT_RELA),
                Dynamic::last_value(section, end, DT_RELA),
                Dynamic::last_value(section, end, DT_RELASZ),
                Dynamic::last_value(section, end, DT_RELAENT),
            )
        } else {
            Err(ElfError::InvalidFormat)
        }
    }

    /// There is at most one entry that ends a section.
    pub proof fn lemma_terminator_is_unique(section: Seq<u8>, end: int)
        requires
            Dynamic::is_terminator(section, end),
        ensures
            Dynamic::has_terminator(section),
            Dynamic::terminator(section) == end,
    {
        let chosen = Dynamic::terminator(section);
        assert(Dynamic::is_terminator(section, chosen));
        if chosen < end {
            assert(Dynamic::entry(section, chosen).tag != DT_NULL);
        } else if end < chosen {
            assert(Dynamic::entry(section, end).tag != DT_NULL);
        }
    }

    /// Walks the entries of a dynamic section up to the first `DT_NULL` entry and
    /// gives the relocation table that they name. Of several entries with one
    /// tag the last counts.
    ///
    /// Fails with `InvalidFormat` when the section ends before a `DT_NULL` entry,
    /// when it gives the position of a table but no size other than 0, and when
    /// it gives a size other than 0 but no position.
    pub fn find_relocations_inner(section: &[u8]) -> (table: Result<
        Option<RelocationTable>,
        ElfError,
    >)
        ensures
            table == Dynamic::relocations_of(section@),
    {
        let mut rel_found: bool = false;
        let mut rel_addr: u64 = 0;
        let mut rel_size: u64 = 0;
        let mut rel_entry_size: u64 = 0;
        let mut index: usize = 0;
        let mut position: usize = 0;
        loop
            invariant_except_break
                position == DYNAMIC_SIZE * index,
                position <= section.len(),
                forall|i: int|
                    0 <= i < index ==> (#[trigger] Dynamic::entry(section@, i)).tag != DT_NULL,
                rel_found == Dynamic::has_tag(section@, index as int, DT_RELA),
                rel_addr == Dynamic::last_value(section@, index as int, DT_RELA),
                rel_size == Dynamic::last_value(section@, index as int, DT_RELASZ),
                rel_entry_size == Dynamic::last_value(section@, index as int, DT_RELAENT),
            ensures
                Dynamic::is_terminator(section@, index as int),
                rel_found == Dynamic::has_tag(section@, index as int, DT_RELA),
                rel_addr == Dynamic::last_value(section@, index as int, DT_RELA),
                rel_size == Dynamic::last_value(section@, index as int, DT_RELASZ),
                rel_entry_size == Dynamic::last_value(section@, index as int, DT_RELAENT),
            decreases section.len() - position,
        {
            if section.len() - position < DYNAMIC_SIZE {
                proof {
                    if Dynamic::has_terminator(section@) {
                        let end = Dynamic::terminator(section@);
                        assert(Dynamic::is_terminator(section@, end));
                        assert(end < index);
                        assert(Dynamic::entry(section@, end).tag != DT_NULL);
                    }
                }
                return Err(ElfError::InvalidFormat);
            }
            let entry = Dynamic::from_bytes(section, position);
            assert(entry == Dynamic::entry(section@, index as int));
            if entry.tag == DT_NULL {
                break ;
            }
            if entry.tag == DT_RELA {
                rel_found = true;
                rel_addr = entry.val;
            } else if entry.tag == DT_RELASZ {
                rel_size = entry.val;
            } else if entry.tag == DT_RELAENT {
                rel_entry_size = entry.val;
            }
            index = index + 1;
            position = position + DYNAMIC_SIZE;
        }
        proof {
            Dynamic::lemma_terminator_is_unique(section@, index as int);
        }
        if !rel_found && rel_size == 0 {
            return Ok(None);
        }
        if !rel_found || rel_size == 0 {
            return Err(ElfError::InvalidFormat);
        }
        Ok(Some(RelocationTable { address: rel_addr, size: rel_size, entry_size: rel_entry_size }))
    }
}

} // verus!
