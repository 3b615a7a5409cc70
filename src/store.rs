use vstd::prelude::*;
use vstd::bytes::lemma_auto_spec_u32_to_from_le_bytes;

use crate::codec::{
    entry_bytes, entry_len, header_bytes, record_bytes, Entry, EntryView, Storage,
    StorageView, ENTRY_FIXED_LEN,
};
use crate::error::PError;
use crate::reserve::{lemma_min_reserve_monotonic, min_reserve_spec, FeeSchedule};

verus! {

/// The record with `e` added at the end of its log.
pub open spec fn appended(r: StorageView, e: EntryView) -> StorageView {
    StorageView { entries: r.entries.push(e), ..r }
}

/// Whether `e` may be appended: its payload is non-empty and its length fits
/// the four-byte length field.
pub open spec fn entry_accepted(e: EntryView) -> bool {
    0 < e.model.len() <= u32::MAX
}

/// Whether a record of `size` encoded bytes can take `e`: the entry count
/// still fits its field and the new size fits in memory.
pub open spec fn growth_possible(r: StorageView, size: int, e: EntryView) -> bool {
    r.entries.len() < u32::MAX && size + entry_len(e) <= usize::MAX
}

/// Encoding grows by exactly the encoded length of the appended entry.
pub proof fn lemma_appended_len(r: StorageView, e: EntryView)
    requires
        r.entries.len() < u32::MAX,
        e.owner.len() == 32,
        e.storage.len() == 32,
    ensures
        record_bytes(appended(r, e)).len() == record_bytes(r).len() + entry_len(e),
{
    lemma_auto_spec_u32_to_from_le_bytes();
    let s = appended(r, e);
    assert(s.entries.drop_last() =~= r.entries);
    assert(header_bytes(s).len() == header_bytes(r).len());
    assert(entry_bytes(e).len() == entry_len(e));
}

/// Appending `e1`, `e2`, `e3` leaves them at the end of the log in that order,
/// whatever their sizes, and leaves the earlier entries as they were.
pub proof fn lemma_append_keeps_order(r: StorageView, e1: EntryView, e2: EntryView, e3: EntryView)
    ensures
        appended(appended(appended(r, e1), e2), e3).entries == r.entries + seq![e1, e2, e3],
{
    assert(appended(appended(appended(r, e1), e2), e3).entries =~= r.entries + seq![e1, e2, e3]);
}

/// Appending an entry never lowers the reserve that the record requires.
pub proof fn lemma_append_keeps_reserve(f: FeeSchedule, r: StorageView, e: EntryView)
    requires
        r.entries.len() < u32::MAX,
        e.owner.len() == 32,
        e.storage.len() == 32,
    ensures
        min_reserve_spec(f, record_bytes(r).len() as int) <= min_reserve_spec(
            f,
            record_bytes(appended(r, e)).len() as int,
        ),
{
    lemma_appended_len(r, e);
    lemma_min_reserve_monotonic(f, record_bytes(r).len() as int, record_bytes(appended(r, e)).len() as int);
}

/// Appends `entry` to the record's log and returns the size, in bytes, that
/// the record's buffer must take before the record is written back.
/// `current_size` is the record's encoded size.
pub fn append_entry(record: &mut Storage, entry: Entry, current_size: usize) -> (r: Result<usize, PError>)
    requires
        current_size == record_bytes(old(record)@).len(),
    ensures
        !entry_accepted(entry@) ==> r == Err::<usize, PError>(PError::InvalidEntryData),
        entry_accepted(entry@) && !growth_possible(old(record)@, current_size as int, entry@) ==> r
            == Err::<usize, PError>(PError::ResizeFailed),
        entry_accepted(entry@) && growth_possible(old(record)@, current_size as int, entry@) ==> r
            == Ok::<usize, PError>((current_size + entry_len(entry@)) as usize),
        r is Ok ==> final(record)@ == appended(old(record)@, entry@) && r->Ok_0 == record_bytes(
            final(record)@,
        ).len(),
        r is Err ==> final(record)@ == old(record)@,
{
    let len: usize = entry.model.len();
    if len == 0 || len as u64 > u32::MAX as u64 {
        return Err(PError::InvalidEntryData);
    }
    if record.entries.len() as u64 >= u32::MAX as u64 {
        return Err(PError::ResizeFailed);
    }
    let new_size: usize = match current_size.checked_add(ENTRY_FIXED_LEN) {
        Some(s) => match s.checked_add(len) {
            Some(t) => t,
            None => {
                return Err(PError::ResizeFailed);
            },
        },
        None => {
            return Err(PError::ResizeFailed);
        },
    };
    proof {
        lemma_appended_len(old(record)@, entry@);
    }
    let ghost e = entry@;
    record.entries.push(entry);
    assert(record@.entries =~= old(record)@.entries.push(e));
    Ok(new_size)
}

} // verus!
