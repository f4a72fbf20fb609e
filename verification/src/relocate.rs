//! Relocation of an image to the address at which it lies in memory.
//!
//! The only relocation that is applied is `R_RISCV_RELATIVE`: it stores the
//! address of the image's start plus the relocation's addend, as a
//! little-endian 64-bit value, at the relocation's offset from the image's start.

use vstd::prelude::*;
use vstd::slice::slice_subrange;
use crate::elf::dynamic::{Dynamic, ElfRela, RelocationTable, R_RISCV_RELATIVE};
use crate::elf::error::ElfError;
use crate::elf::util::{
    lemma_write_then_read_u64,
    spec_read_u64,
    spec_u64_bytes,
    spec_write_u64,
    wrap64,
    write_u64,
};
use crate::uefi::types::EfiStatus;

verus! {

/// The value that a relocation stores: the base address plus the addend, in
/// 64-bit arithmetic.
pub open spec fn relocation_value(base_address: u64, rela: ElfRela) -> u64 {
    wrap64(base_address + rela.addend)
}

/// Whether a relocation can be applied to a memory of `memory_len` bytes.
/// `InvalidFormat` says that its type is not `R_RISCV_RELATIVE`,
/// `BufferOverflow` that the eight bytes at its offset do not lie inside the
/// memory.
pub open spec fn relocation_check(rela: ElfRela, memory_len: nat) -> Result<(), ElfError> {
    if rela.info != R_RISCV_RELATIVE {
        Err(ElfError::InvalidFormat)
    } else if rela.offset + 8 > memory_len {
        Err(ElfError::BufferOverflow)
    } else {
        Ok(())
    }
}

/// Memory that starts at `base_address`, after a relocation was applied to it.
pub open spec fn relocated(rela: ElfRela, base_address: u64, memory: Seq<u8>) -> Seq<u8> {
    spec_write_u64(memory, rela.offset as int, relocation_value(base_address, rela))
}

/// Memory after the first `count` of `entries` were applied in order, and
/// whether all of them could be. Applying stops at the first relocation that
/// cannot be applied.
pub open spec fn relocate_entries(
    entries: Seq<ElfRela>,
    base_address: u64,
    memory: Seq<u8>,
    count: int,
) -> (Seq<u8>, Result<(), ElfError>)
    decreases count,
{
    if count <= 0 {
        (memory, Ok(()))
    } else {
        let (before, applied) = relocate_entries(entries, base_address, memory, count - 1);
        if applied is Err {
            (before, applied)
        } else {
            match relocation_check(entries[count - 1], memory.len()) {
                Ok(_) => (relocated(entries[count - 1], base_address, before), Ok(())),
                Err(e) => (before, Err(e)),
            }
        }
    }
}

/// Memory after the first `count` relocations of a table that lies in that
/// same memory were applied in order. Each relocation is read when its turn
/// comes, from the memory as the relocations before it left it.
pub open spec fn relocate_in_place(
    table: RelocationTable,
    base_address: u64,
    memory: Seq<u8>,
    count: int,
) -> (Seq<u8>, Result<(), ElfError>)
    decreases count,
{
    if count <= 0 {
        (memory, Ok(()))
    } else {
        let (before, applied) = relocate_in_place(table, base_address, memory, count - 1);
        if applied is Err {
            (before, applied)
        } else {
            let rela = table.entry(before, count - 1);
            match relocation_check(rela, memory.len()) {
                Ok(_) => (relocated(rela, base_address, before), Ok(())),
                Err(e) => (before, Err(e)),
            }
        }
    }
}

/// What relocating an image in place gives: the memory afterwards, and the
/// status. `elf_dyn` is the position of the image's dynamic section in
/// `memory`, which starts at `base_address`.
pub open spec fn self_relocation(memory: Seq<u8>, base_address: u64, elf_dyn: nat) -> (
    Seq<u8>,
    EfiStatus,
) {
    if elf_dyn > memory.len() {
        (memory, EfiStatus(0x8000_0000_0000_0001))
    } else {
        match Dynamic::relocations_of(memory.subrange(elf_dyn as int, memory.len() as int)) {
            Ok(None) => (memory, EfiStatus(0)),
            Ok(Some(table)) => {
                if table.walk_check(memory.len()) is Ok {
                    let (after, applied) = relocate_in_place(
                        table,
                        base_address,
                        memory,
                        table.entry_count(),
                    );
                    if applied is Ok {
                        (after, EfiStatus(0))
                    } else {
                        (after, EfiStatus(0x8000_0000_0000_0001))
                    }
                } else {
                    (memory, EfiStatus(0x8000_0000_0000_0001))
                }
            },
            Err(_) => (memory, EfiStatus(0x8000_0000_0000_0001)),
        }
    }
}

/// Applying relocations keeps the size of the memory.
pub proof fn lemma_relocate_entries_len(
    entries: Seq<ElfRela>,
    base_address: u64,
    memory: Seq<u8>,
    count: int,
)
    ensures
        relocate_entries(entries, base_address, memory, count).0.len() == memory.len(),
    decreases count,
{
    if count > 0 {
        lemma_relocate_entries_len(entries, base_address, memory, count - 1);
    }
}

/// Once a relocation could not be applied, none is applied any more.
pub proof fn lemma_relocate_entries_stops(
    entries: Seq<ElfRela>,
    base_address: u64,
    memory: Seq<u8>,
    failed: int,
    count: int,
)
    requires
        relocate_entries(entries, base_address, memory, failed).1 is Err,
        failed <= count,
    ensures
        relocate_entries(entries, base_address, memory, count) == relocate_entries(
            entries,
            base_address,
            memory,
            failed,
        ),
    decreases count - failed,
{
    if failed < count {
        lemma_relocate_entries_stops(entries, base_address, memory, failed, count - 1);
    }
}

/// Relocating in place keeps the size of the memory.
pub proof fn lemma_relocate_in_place_len(
    table: RelocationTable,
    base_address: u64,
    memory: Seq<u8>,
    count: int,
)
    ensures
        relocate_in_place(table, base_address, memory, count).0.len() == memory.len(),
    decreases count,
{
    if count > 0 {
        lemma_relocate_in_place_len(table, base_address, memory, count - 1);
    }
}

/// Once a relocation could not be applied in place, none is applied any more.
pub proof fn lemma_relocate_in_place_stops(
    table: RelocationTable,
    base_address: u64,
    memory: Seq<u8>,
    failed: int,
    count: int,
)
    requires
        relocate_in_place(table, base_address, memory, failed).1 is Err,
        failed <= count,
    ensures
        relocate_in_place(table, base_address, memory, count) == relocate_in_place(
            table,
            base_address,
            memory,
            failed,
        ),
    decreases count - failed,
{
    if failed < count {
        lemma_relocate_in_place_stops(table, base_address, memory, failed, count - 1);
    }
}

/// Whether applying a relocation writes the byte at `position`.
pub open spec fn writes_slot(rela: ElfRela, position: int) -> bool {
    rela.offset <= position < rela.offset + 8
}

/// The byte that applying a relocation writes at `position`.
pub open spec fn slot_byte(base_address: u64, rela: ElfRela, position: int) -> u8 {
    spec_u64_bytes(relocation_value(base_address, rela))[position - rela.offset]
}

/// Where all of the first `count` relocations were applied, all of fewer were.
pub proof fn lemma_relocate_entries_before(
    entries: Seq<ElfRela>,
    base_address: u64,
    memory: Seq<u8>,
    fewer: int,
    count: int,
)
    requires
        relocate_entries(entries, base_address, memory, count).1 is Ok,
        fewer <= count,
    ensures
        relocate_entries(entries, base_address, memory, fewer).1 is Ok,
    decreases count - fewer,
{
    if fewer < count {
        if relocate_entries(entries, base_address, memory, count - 1).1 is Err {
            lemma_relocate_entries_stops(entries, base_address, memory, count - 1, count);
        }
        lemma_relocate_entries_before(entries, base_address, memory, fewer, count - 1);
    }
}

/// After the first `count` relocations were applied, memory holds at
/// `position` what relocation `index` wrote there, if every later one among
/// them that wrote there wrote the same byte.
pub proof fn lemma_slot_byte_stays(
    entries: Seq<ElfRela>,
    base_address: u64,
    memory: Seq<u8>,
    index: int,
    position: int,
    count: int,
)
    requires
        0 <= index < count <= entries.len(),
        relocate_entries(entries, base_address, memory, count).1 is Ok,
        writes_slot(entries[index], position),
        forall|later: int|
            index < later < count && writes_slot(#[trigger] entries[later], position) ==> slot_byte(
                base_address,
                entries[later],
                position,
            ) == slot_byte(base_address, entries[index], position),
    ensures
        0 <= position < memory.len(),
        relocate_entries(entries, base_address, memory, count).0[position] == slot_byte(
            base_address,
            entries[index],
            position,
        ),
    decreases count,
{
    lemma_relocate_entries_before(entries, base_address, memory, count - 1, count);
    lemma_relocate_entries_before(entries, base_address, memory, index, count);
    lemma_relocate_entries_before(entries, base_address, memory, index + 1, count);
    lemma_relocate_entries_len(entries, base_address, memory, count - 1);
    lemma_relocate_entries_len(entries, base_address, memory, index);
    assert(relocation_check(entries[index], memory.len()) is Ok);
    if index < count - 1 {
        lemma_slot_byte_stays(entries, base_address, memory, index, position, count - 1);
        assert(writes_slot(entries[count - 1], position) ==> slot_byte(
            base_address,
            entries[count - 1],
            position,
        ) == slot_byte(base_address, entries[index], position));
    }
}

/// After all relocations were applied, the 64-bit value in memory at a
/// relocation's offset is the base address plus its addend, unless a later
/// relocation wrote another byte into those eight.
pub proof fn lemma_relocation_in_memory(
    entries: Seq<ElfRela>,
    base_address: u64,
    memory: Seq<u8>,
    index: int,
)
    requires
        relocate_entries(entries, base_address, memory, entries.len() as int).1 is Ok,
        0 <= index < entries.len(),
        forall|later: int, position: int|
            index < later < entries.len() && writes_slot(entries[index], position) && writes_slot(
                entries[later],
                position,
            ) ==> #[trigger] slot_byte(base_address, entries[later], position) == slot_byte(
                base_address,
                entries[index],
                position,
            ),
    ensures
        entries[index].offset + 8 <= memory.len(),
        spec_read_u64(
            relocate_entries(entries, base_address, memory, entries.len() as int).0,
            entries[index].offset as int,
        ) == wrap64(base_address + entries[index].addend),
        0 <= base_address + entries[index].addend <= u64::MAX ==> spec_read_u64(
            relocate_entries(entries, base_address, memory, entries.len() as int).0,
            entries[index].offset as int,
        ) == base_address + entries[index].addend,
{
    let count = entries.len() as int;
    let after = relocate_entries(entries, base_address, memory, count).0;
    let rela = entries[index];
    let value = relocation_value(base_address, rela);
    lemma_relocate_entries_len(entries, base_address, memory, count);
    assert forall|position: int| writes_slot(rela, position) implies 0 <= position < after.len()
        && after[position] == slot_byte(base_address, rela, position) by {
        assert forall|later: int|
            index < later < count && writes_slot(
                #[trigger] entries[later],
                position,
            ) implies slot_byte(base_address, entries[later], position) == slot_byte(
            base_address,
            rela,
            position,
        ) by {
            assert(writes_slot(entries[later], position));
            assert(slot_byte(base_address, entries[later], position) == slot_byte(
                base_address,
                entries[index],
                position,
            ));
        }
        lemma_slot_byte_stays(entries, base_address, memory, index, position, count);
    }
    assert(rela.offset + 8 <= memory.len()) by {
        assert(writes_slot(rela, rela.offset as int));
        assert(writes_slot(rela, rela.offset + 7));
    }
    assert(after =~= spec_write_u64(after, rela.offset as int, value)) by {
        assert forall|position: int| 0 <= position < after.len() implies after[position]
            == spec_write_u64(after, rela.offset as int, value)[position] by {
            if writes_slot(rela, position) {
                assert(after[position] == slot_byte(base_address, rela, position));
            }
        }
    }
    lemma_write_then_read_u64(after, rela.offset as int, value);
}

/// Applies one relocation to `memory`, which starts at `base_address`.
///
/// Fails with `InvalidFormat` when the relocation's type is not
/// `R_RISCV_RELATIVE`, and with `BufferOverflow` when the eight bytes at its
/// offset do not lie inside the memory; the memory is then unchanged.
pub fn apply_relocation(rela: &ElfRela, base_address: u64, memory: &mut [u8]) -> (applied: Result<
    (),
    ElfError,
>)
    ensures
        applied == relocation_check(*rela, old(memory)@.len()),
        final(memory)@ == (if applied is Ok {
            relocated(*rela, base_address, old(memory)@)
        } else {
            old(memory)@
        }),
{
    if rela.info != R_RISCV_RELATIVE {
        return Err(ElfError::InvalidFormat);
    }
    let length: u64 = memory.len() as u64;
    if length < 8 || rela.offset > length - 8 {
        return Err(ElfError::BufferOverflow);
    }
    let value: u64 = base_address.wrapping_add_signed(rela.addend);
    write_u64(memory, rela.offset as usize, value);
    Ok(())
}

/// Applies the relocations of a table, in table order, to `memory`, which
/// starts at `base_address`. The table is read from `image`.
///
/// Fails with the error of `RelocationTable::check_walk` when the table cannot
/// be walked in the image; the memory is then unchanged. Fails with the error
/// of `apply_relocation` at the first relocation that cannot be applied; those
/// before it have been applied.
pub fn apply_relocations(
    image: &[u8],
    relocations: &RelocationTable,
    base_address: u64,
    memory: &mut [u8],
) -> (applied: Result<(), ElfError>)
    ensures
        match relocations.walk_check(image@.len()) {
            Ok(_) => (final(memory)@, applied) == relocate_entries(
                relocations.entries(image@),
                base_address,
                old(memory)@,
                relocations.entry_count(),
            ),
            Err(e) => final(memory)@ == old(memory)@ && applied == Err::<(), ElfError>(e),
        },
{
    let mut walk = match relocations.into_iter(image) {
        Ok(walk) => walk,
        Err(e) => {
            return Err(e);
        },
    };
    let ghost entries = walk.entries();
    proof {
        relocations.lemma_entry_count(0);
    }
    loop
        invariant
            walk.entries() == entries,
            entries == relocations.entries(image@),
            entries.len() == relocations.entry_count(),
            relocations.walk_check(image@.len()) is Ok,
            0 <= walk.position() <= entries.len(),
            memory@.len() == old(memory)@.len(),
            relocate_entries(entries, base_address, old(memory)@, walk.position()) == (
                memory@,
                Ok::<(), ElfError>(()),
            ),
        decreases entries.len() - walk.position(),
    {
        let ghost index = walk.position();
        match walk.next() {
            Some(rela) => {
                let ghost before = memory@;
                match apply_relocation(&rela, base_address, memory) {
                    Ok(_) => {
                        assert(relocation_check(entries[index], old(memory)@.len()) is Ok);
                        assert(memory@ == relocated(entries[index], base_address, before));
                        assert(relocate_entries(entries, base_address, old(memory)@, index + 1)
                            == (memory@, Ok::<(), ElfError>(())));
                    },
                    Err(e) => {
                        proof {
                            assert(relocation_check(entries[index], old(memory)@.len()) == Err::<
                                (),
                                ElfError,
                            >(e));
                            assert(relocate_entries(entries, base_address, old(memory)@, index + 1)
                                == (memory@, Err::<(), ElfError>(e)));
                            lemma_relocate_entries_stops(
                                entries,
                                base_address,
                                old(memory)@,
                                index + 1,
                                entries.len() as int,
                            );
                        }
                        return Err(e);
                    },
                }
            },
            None => {
                return Ok(());
            },
        }
    }
}

/// Applies relocation `index` of a table that lies in `memory` itself, after
/// those before it were applied to what was `start`.
fn relocate_next(
    table: &RelocationTable,
    base_address: u64,
    memory: &mut [u8],
    index: u64,
    Ghost(start): Ghost<Seq<u8>>,
) -> (applied: Result<(), ElfError>)
    requires
        table.walk_check(start.len()) is Ok,
        index < table.entry_count(),
        relocate_in_place(*table, base_address, start, index as int) == (
            old(memory)@,
            Ok::<(), ElfError>(()),
        ),
    ensures
        relocate_in_place(*table, base_address, start, index + 1) == (final(memory)@, applied),
{
    proof {
        lemma_relocate_in_place_len(*table, base_address, start, index as int);
    }
    let rela = table.read_entry(memory, index);
    apply_relocation(&rela, base_address, memory)
}

/// Relocates, in place, the image that lies in `memory`: finds the relocation
/// table that the dynamic section at position `elf_dyn` names, and applies its
/// relocations in table order with `base_address`, the address at which
/// `memory` starts, as the image's base.
///
/// Gives the status 0 when the image has no relocations and when all were
/// applied. Gives the load error, and applies no relocation from the failing
/// one on, when the dynamic section does not lie inside the memory or is
/// malformed, when the table cannot be walked, when a relocation has another
/// type than `R_RISCV_RELATIVE`, and when one points outside the memory.
pub fn relocate(memory: &mut [u8], base_address: u64, elf_dyn: usize) -> (status: EfiStatus)
    ensures
        (final(memory)@, status) == self_relocation(old(memory)@, base_address, elf_dyn as nat),
{
    if elf_dyn > memory.len() {
        return EfiStatus::load_error();
    }
    let length: usize = memory.len();
    let found = Dynamic::find_relocations_inner(slice_subrange(memory, elf_dyn, length));
    let table = match found {
        Ok(Some(table)) => table,
        Ok(None) => {
            return EfiStatus::success();
        },
        Err(_) => {
            return EfiStatus::load_error();
        },
    };
    match table.check_walk(length) {
        Ok(_) => {},
        Err(_) => {
            return EfiStatus::load_error();
        },
    }
    let mut index: u64 = 0;
    proof {
        table.lemma_entry_count(0);
    }
    let ghost count = table.entry_count();
    while table.has_entry(index)
        invariant
            elf_dyn <= old(memory)@.len(),
            Dynamic::relocations_of(
                old(memory)@.subrange(elf_dyn as int, old(memory)@.len() as int),
            ) == Ok::<Option<RelocationTable>, ElfError>(Some(table)),
            table.walk_check(old(memory)@.len()) is Ok,
            table.entry_size > 0,
            count == table.entry_count(),
            0 <= index <= count,
            memory@.len() == old(memory)@.len(),
            relocate_in_place(table, base_address, old(memory)@, index as int) == (
                memory@,
                Ok::<(), ElfError>(()),
            ),
        decreases count - index,
    {
        match relocate_next(&table, base_address, memory, index, Ghost(old(memory)@)) {
            Ok(_) => {},
            Err(e) => {
                proof {
                    lemma_relocate_in_place_stops(
                        table,
                        base_address,
                        old(memory)@,
                        index + 1,
                        count,
                    );
                }
                return EfiStatus::load_error();
            },
        }
        proof {
            lemma_relocate_in_place_len(table, base_address, old(memory)@, index + 1);
        }
        proof {
            table.lemma_entry_count_bound();
        }
        index = index + 1;
    }
    EfiStatus::success()
}

} // verus!
