use vstd::prelude::*;
use vstd::bytes::{
    lemma_auto_spec_u32_to_from_le_bytes, spec_u32_from_le_bytes, spec_u32_to_le_bytes,
    u32_from_le_bytes, u32_to_le_bytes,
};
use vstd::slice::{slice_subrange, slice_to_vec};

use crate::error::PError;
use crate::principal::{read_principal, Principal};

verus! {

/// The schema version that this codec writes.
pub const CURRENT_SCHEMA_VERSION: u8 = 1;

/// Bytes before the first entry: initialised flag, schema version, authority,
/// bump and entry count.
pub const HEADER_LEN: usize = 39;

/// Bytes of an entry besides its payload: owner, back-reference, status and
/// payload length.
pub const ENTRY_FIXED_LEN: usize = 69;

/// One appended unit of a record's log.
#[derive(Debug, Clone)]
pub struct Entry {
    pub owner: Principal,
    /// The address of the record that holds the entry (provenance only).
    pub storage: Principal,
    /// `None` for a plain entry, `Some(done)` for a service request.
    pub fulfilled: Option<bool>,
    /// Opaque descriptor, such as a model identifier.
    pub model: Vec<u8>,
}

/// The mathematical value of an `Entry`.
pub struct EntryView {
    pub owner: Seq<u8>,
    pub storage: Seq<u8>,
    pub fulfilled: Option<bool>,
    pub model: Seq<u8>,
}

impl View for Entry {
    type V = EntryView;

    open spec fn view(&self) -> EntryView {
        EntryView { owner: self.owner@, storage: self.storage@, fulfilled: self.fulfilled, model: self.model@ }
    }
}

/// The persisted state of one owner's record.
#[derive(Debug, Clone)]
pub struct Storage {
    pub initialized: bool,
    pub schema_version: u8,
    pub authority: Principal,
    /// The bump byte that re-derives the record's own address.
    pub bump: u8,
    pub entries: Vec<Entry>,
}

/// The mathematical value of a `Storage` record.
pub struct StorageView {
    pub initialized: bool,
    pub schema_version: u8,
    pub authority: Seq<u8>,
    pub bump: u8,
    pub entries: Seq<EntryView>,
}

impl View for Storage {
    type V = StorageView;

    open spec fn view(&self) -> StorageView {
        StorageView {
            initialized: self.initialized,
            schema_version: self.schema_version,
            authority: self.authority@,
            bump: self.bump,
            entries: self.entries@.map_values(|e: Entry| e@),
        }
    }
}

/// The status byte of an entry: plain, open request, fulfilled request.
pub open spec fn status_byte(f: Option<bool>) -> u8 {
    match f {
        None => 0u8,
        Some(false) => 1u8,
        Some(true) => 2u8,
    }
}

/// The entry status that a status byte stands for.
pub open spec fn status_of(b: u8) -> Option<bool> {
    if b == 0 {
        None
    } else if b == 1 {
        Some(false)
    } else {
        Some(true)
    }
}

/// Encoded length of an entry.
pub open spec fn entry_len(e: EntryView) -> int {
    ENTRY_FIXED_LEN + e.model.len()
}

/// `[owner:32][storage:32][status:1][payload length:4 LE][payload]`
pub open spec fn entry_bytes(e: EntryView) -> Seq<u8> {
    e.owner + e.storage + seq![status_byte(e.fulfilled)] + spec_u32_to_le_bytes(e.model.len() as u32) + e.model
}

/// The entries, encoded one after the other.
pub open spec fn entries_bytes(es: Seq<EntryView>) -> Seq<u8>
    decreases es.len(),
{
    if es.len() == 0 {
        Seq::empty()
    } else {
        entries_bytes(es.drop_last()) + entry_bytes(es.last())
    }
}

/// The bytes before the entries.
pub open spec fn header_bytes(r: StorageView) -> Seq<u8> {
    seq![if r.initialized { 1u8 } else { 0u8 }, r.schema_version] + r.authority + seq![r.bump]
        + spec_u32_to_le_bytes(r.entries.len() as u32)
}

/// `[initialized:1][schema version:1][authority:32][bump:1][entry count:4 LE][entries]`
pub open spec fn record_bytes(r: StorageView) -> Seq<u8> {
    header_bytes(r) + entries_bytes(r.entries)
}

/// An entry the codec can write: identities of 32 bytes, a payload whose
/// length fits four bytes.
pub open spec fn entry_valid(e: EntryView) -> bool {
    &&& e.owner.len() == 32
    &&& e.storage.len() == 32
    &&& e.model.len() <= u32::MAX
}

/// The record of an address that was never initialised.
pub open spec fn blank_record() -> StorageView {
    StorageView {
        initialized: false,
        schema_version: CURRENT_SCHEMA_VERSION,
        authority: Seq::new(32, |i: int| 0u8),
        bump: 0,
        entries: Seq::empty(),
    }
}

/// A record at the current schema version that the codec can write.
pub open spec fn record_valid(r: StorageView) -> bool {
    &&& r.schema_version == CURRENT_SCHEMA_VERSION
    &&& r.authority.len() == 32
    &&& r.entries.len() <= u32::MAX
    &&& forall|i: int| 0 <= i < r.entries.len() ==> entry_valid(#[trigger] r.entries[i])
    &&& !r.initialized ==> r == blank_record()
}

/// Reads one entry from the front of `b`, with the number of bytes it took.
pub open spec fn parse_entry(b: Seq<u8>) -> Option<(EntryView, int)> {
    if b.len() < ENTRY_FIXED_LEN || b[64] > 2 {
        None
    } else {
        let n = spec_u32_from_le_bytes(b.subrange(65, 69)) as int;
        if b.len() < ENTRY_FIXED_LEN + n {
            None
        } else {
            Some((
                EntryView {
                    owner: b.subrange(0, 32),
                    storage: b.subrange(32, 64),
                    fulfilled: status_of(b[64]),
                    model: b.subrange(69, 69 + n),
                },
                ENTRY_FIXED_LEN + n,
            ))
        }
    }
}

/// Reads `n` entries of `b` from offset `start`, with the offset after them.
pub open spec fn parse_entries(b: Seq<u8>, start: int, n: nat) -> Option<(Seq<EntryView>, int)>
    decreases n,
{
    if n == 0 {
        Some((Seq::empty(), start))
    } else {
        match parse_entries(b, start, (n - 1) as nat) {
            Some((es, off)) => match parse_entry(b.skip(off)) {
                Some((e, k)) => Some((es.push(e), off + k)),
                None => None,
            },
            None => None,
        }
    }
}

/// Migration of a buffer written at another schema version: the header that
/// all versions share (initialised flag, authority, bump) is kept, the entry
/// log, whose layout is unknown, starts empty, and the result is stamped with
/// the current version.
pub open spec fn migrated_record(b: Seq<u8>) -> StorageView {
    StorageView {
        initialized: true,
        schema_version: CURRENT_SCHEMA_VERSION,
        authority: b.subrange(2, 34),
        bump: b[34],
        entries: Seq::empty(),
    }
}

/// What a stored buffer decodes to; trailing bytes are ignored.
pub open spec fn decode_spec(b: Seq<u8>) -> Option<StorageView> {
    if b.len() == 0 || b[0] == 0 {
        Some(blank_record())
    } else if b[0] != 1 || b.len() < 35 {
        None
    } else if b[1] != CURRENT_SCHEMA_VERSION {
        Some(migrated_record(b))
    } else if b.len() < HEADER_LEN {
        None
    } else {
        match parse_entries(b, HEADER_LEN as int, spec_u32_from_le_bytes(b.subrange(35, 39)) as nat) {
            Some((es, _)) => Some(
                StorageView {
                    initialized: true,
                    schema_version: CURRENT_SCHEMA_VERSION,
                    authority: b.subrange(2, 34),
                    bump: b[34],
                    entries: es,
                },
            ),
            None => None,
        }
    }
}

fn append_bytes(out: &mut Vec<u8>, bytes: &[u8])
    ensures
        final(out)@ == old(out)@ + bytes@,
{
    let n: usize = bytes.len();
    let mut i: usize = 0;
    while i < n
        invariant
            n == bytes@.len(),
            0 <= i <= n,
            out@ == old(out)@ + bytes@.subrange(0, i as int),
        decreases n - i,
    {
        out.push(bytes[i]);
        i = i + 1;
        assert(out@ =~= old(out)@ + bytes@.subrange(0, i as int));
    }
    assert(bytes@.subrange(0, n as int) =~= bytes@);
}

impl Entry {
    /// Encoded length of an entry whose payload is `model`.
    pub fn calculate_len(model: &[u8]) -> (r: usize)
        requires
            model@.len() + ENTRY_FIXED_LEN <= usize::MAX,
        ensures
            r == ENTRY_FIXED_LEN + model@.len(),
    {
        ENTRY_FIXED_LEN + model.len()
    }

    fn write_to(&self, out: &mut Vec<u8>)
        requires
            entry_valid(self@),
        ensures
            final(out)@ == old(out)@ + entry_bytes(self@),
    {
        append_bytes(out, &self.owner);
        append_bytes(out, &self.storage);
        let status: u8 = match self.fulfilled {
            None => 0u8,
            Some(false) => 1u8,
            Some(true) => 2u8,
        };
        out.push(status);
        let len_bytes = u32_to_le_bytes(self.model.len() as u32);
        append_bytes(out, len_bytes.as_slice());
        append_bytes(out, self.model.as_slice());
        assert(final(out)@ =~= old(out)@ + entry_bytes(self@));
    }

    /// Reads the entry that starts at `off` in `buf`.
    fn read_from(buf: &[u8], off: usize) -> (r: Option<(Entry, usize)>)
        requires
            off <= buf@.len(),
        ensures
            match r {
                Some((e, end)) => parse_entry(buf@.skip(off as int)) == Some((e@, end - off)),
                None => parse_entry(buf@.skip(off as int)) is None,
            },
    {
        let b = Ghost(buf@.skip(off as int));
        let len: usize = buf.len();
        if len - off < ENTRY_FIXED_LEN || buf[off + 64] > 2 {
            return None;
        }
        let n: u32 = u32_from_le_bytes(slice_subrange(buf, off + 65, off + 69));
        assert(buf@.subrange(off + 65, off + 69) =~= b@.subrange(65, 69));
        if ((len - off - ENTRY_FIXED_LEN) as u64) < (n as u64) {
            return None;
        }
        let nn: usize = n as usize;
        let owner = read_principal(buf, off);
        let storage = read_principal(buf, off + 32);
        let status: u8 = buf[off + 64];
        let fulfilled: Option<bool> = if status == 0 {
            None
        } else if status == 1 {
            Some(false)
        } else {
            Some(true)
        };
        let model = slice_to_vec(slice_subrange(buf, off + 69, off + 69 + nn));
        let e = Entry { owner, storage, fulfilled, model };
        assert(owner@ =~= b@.subrange(0, 32));
        assert(storage@ =~= b@.subrange(32, 64));
        assert(model@ =~= b@.subrange(69, 69 + nn));
        Some((e, off + ENTRY_FIXED_LEN + nn))
    }
}

impl Storage {
    /// Encoded length of the record, or `None` where it exceeds `usize::MAX`.
    pub fn calculate_len(&self) -> (r: Option<usize>)
        ensures
            match r {
                Some(n) => n == record_bytes(self@).len(),
                None => record_bytes(self@).len() > usize::MAX,
            },
    {
        let ghost es = self@.entries;
        proof {
            lemma_auto_spec_u32_to_from_le_bytes();
            assert(es.take(0) =~= Seq::<EntryView>::empty());
        }
        let n: usize = self.entries.len();
        let mut total: usize = HEADER_LEN;
        let mut i: usize = 0;
        while i < n
            invariant
                n == self.entries@.len(),
                es == self@.entries,
                0 <= i <= n,
                header_bytes(self@).len() == HEADER_LEN,
                total == HEADER_LEN + entries_bytes(es.take(i as int)).len(),
            decreases n - i,
        {
            assert(es[i as int] == self.entries@[i as int]@);
            proof {
                lemma_entries_bytes_step(es, i as int);
            }
            let m: usize = self.entries[i].model.len();
            let with_fixed = match total.checked_add(ENTRY_FIXED_LEN) {
                Some(t) => t,
                None => {
                    proof {
                        lemma_entries_bytes_prefix(es, i + 1);
                    }
                    return None;
                },
            };
            total = match with_fixed.checked_add(m) {
                Some(t) => t,
                None => {
                    proof {
                        lemma_entries_bytes_prefix(es, i + 1);
                    }
                    return None;
                },
            };
            i = i + 1;
        }
        assert(es.take(n as int) =~= es);
        Some(total)
    }

    /// Writes the record in the current layout.
    pub fn encode(&self) -> (out: Vec<u8>)
        requires
            self.entries@.len() <= u32::MAX,
            forall|i: int| 0 <= i < self.entries@.len() ==> entry_valid(#[trigger] self@.entries[i]),
        ensures
            out@ == record_bytes(self@),
    {
        let ghost es = self@.entries;
        let mut out: Vec<u8> = Vec::new();
        out.push(if self.initialized { 1u8 } else { 0u8 });
        out.push(self.schema_version);
        append_bytes(&mut out, &self.authority);
        out.push(self.bump);
        let count = u32_to_le_bytes(self.entries.len() as u32);
        append_bytes(&mut out, count.as_slice());
        assert(out@ =~= header_bytes(self@));
        let n: usize = self.entries.len();
        let mut i: usize = 0;
        assert(es.take(0) =~= Seq::<EntryView>::empty());
        while i < n
            invariant
                n == self.entries@.len(),
                es == self@.entries,
                0 <= i <= n,
                forall|k: int| 0 <= k < n ==> entry_valid(#[trigger] es[k]),
                out@ == header_bytes(self@) + entries_bytes(es.take(i as int)),
            decreases n - i,
        {
            assert(es[i as int] == self.entries@[i as int]@);
            self.entries[i].write_to(&mut out);
            assert(es.take(i + 1).drop_last() =~= es.take(i as int));
            i = i + 1;
            assert(out@ =~= header_bytes(self@) + entries_bytes(es.take(i as int)));
        }
        assert(es.take(n as int) =~= es);
        out
    }

    /// Reads a record from a stored buffer. An empty buffer, or one whose
    /// first byte is zero, holds a record that was never initialised; a
    /// buffer at another schema version is migrated (see `migrated_record`).
    pub fn decode(buf: &[u8]) -> (r: Result<Storage, PError>)
        ensures
            match r {
                Ok(s) => decode_spec(buf@) == Some(s@),
                Err(e) => decode_spec(buf@) is None && e == PError::InvalidRecordData,
            },
    {
        let len: usize = buf.len();
        if len == 0 || buf[0] == 0 {
            let s = Storage::blank();
            return Ok(s);
        }
        if buf[0] != 1 || len < 35 {
            return Err(PError::InvalidRecordData);
        }
        let authority = read_principal(buf, 2);
        let bump: u8 = buf[34];
        if buf[1] != CURRENT_SCHEMA_VERSION {
            let s = Storage {
                initialized: true,
                schema_version: CURRENT_SCHEMA_VERSION,
                authority,
                bump,
                entries: Vec::new(),
            };
            assert(s@.entries =~= Seq::<EntryView>::empty());
            return Ok(s);
        }
        if len < HEADER_LEN {
            return Err(PError::InvalidRecordData);
        }
        let count: u32 = u32_from_le_bytes(slice_subrange(buf, 35, 39));
        assert(count == spec_u32_from_le_bytes(buf@.subrange(35, 39)));
        let mut entries: Vec<Entry> = Vec::new();
        let mut off: usize = HEADER_LEN;
        let mut i: u32 = 0;
        assert(entries@.map_values(|e: Entry| e@) =~= Seq::<EntryView>::empty());
        while i < count
            invariant
                len == buf@.len(),
                len >= HEADER_LEN,
                buf@[0] == 1,
                buf@[1] == CURRENT_SCHEMA_VERSION,
                count == spec_u32_from_le_bytes(buf@.subrange(35, 39)),
                0 <= i <= count,
                HEADER_LEN <= off <= len,
                parse_entries(buf@, HEADER_LEN as int, i as nat) == Some(
                    (entries@.map_values(|e: Entry| e@), off as int),
                ),
            decreases count - i,
        {
            match Entry::read_from(buf, off) {
                Some((e, end)) => {
                    proof {
                        let ghost old_es = entries@;
                        assert((old_es.push(e)).map_values(|x: Entry| x@) =~= old_es.map_values(
                            |x: Entry| x@,
                        ).push(e@));
                    }
                    entries.push(e);
                    off = end;
                    i = i + 1;
                },
                None => {
                    proof {
                        assert(parse_entries(buf@, HEADER_LEN as int, (i + 1) as nat) is None);
                        lemma_parse_entries_stays_none(buf@, HEADER_LEN as int, (i + 1) as nat, count as nat);
                    }
                    return Err(PError::InvalidRecordData);
                },
            }
        }
        let s = Storage { initialized: true, schema_version: CURRENT_SCHEMA_VERSION, authority, bump, entries };
        Ok(s)
    }

    /// The record of an address that was never initialised.
    pub fn blank() -> (s: Storage)
        ensures
            s@ == blank_record(),
    {
        let s = Storage {
            initialized: false,
            schema_version: CURRENT_SCHEMA_VERSION,
            authority: crate::principal::zero_principal(),
            bump: 0,
            entries: Vec::new(),
        };
        assert(s@.entries =~= Seq::<EntryView>::empty());
        s
    }
}

proof fn lemma_parse_entries_stays_none(b: Seq<u8>, start: int, n: nat, m: nat)
    requires
        n <= m,
        parse_entries(b, start, n) is None,
    ensures
        parse_entries(b, start, m) is None,
    decreases m - n,
{
    if n < m {
        lemma_parse_entries_stays_none(b, start, n, (m - 1) as nat);
    }
}

proof fn lemma_entry_round_trip(e: EntryView, rest: Seq<u8>)
    requires
        entry_valid(e),
    ensures
        parse_entry(entry_bytes(e) + rest) == Some((e, entry_len(e))),
{
    lemma_auto_spec_u32_to_from_le_bytes();
    let b = entry_bytes(e) + rest;
    let n = e.model.len() as u32;
    assert(b.subrange(0, 32) =~= e.owner);
    assert(b.subrange(32, 64) =~= e.storage);
    assert(b[64] == status_byte(e.fulfilled));
    assert(b.subrange(65, 69) =~= spec_u32_to_le_bytes(n));
    assert(b.subrange(69, 69 + e.model.len() as int) =~= e.model);
}

proof fn lemma_entries_round_trip(es: Seq<EntryView>, prefix: Seq<u8>, rest: Seq<u8>)
    requires
        forall|i: int| 0 <= i < es.len() ==> entry_valid(#[trigger] es[i]),
    ensures
        parse_entries(prefix + entries_bytes(es) + rest, prefix.len() as int, es.len()) == Some(
            (es, (prefix.len() + entries_bytes(es).len()) as int),
        ),
    decreases es.len(),
{
    if es.len() > 0 {
        let init = es.drop_last();
        let last = es.last();
        assert(entry_valid(es[es.len() - 1]));
        let tail = entry_bytes(last) + rest;
        lemma_auto_spec_u32_to_from_le_bytes();
        assert(entry_bytes(last).len() == entry_len(last));
        assert(forall|i: int| 0 <= i < init.len() ==> #[trigger] init[i] == es[i]);
        lemma_entries_round_trip(init, prefix, tail);
        let b = prefix + entries_bytes(es) + rest;
        assert(b =~= prefix + entries_bytes(init) + tail);
        assert(b.skip((prefix.len() + entries_bytes(init).len()) as int) =~= tail);
        lemma_entry_round_trip(last, rest);
        assert(init.push(last) =~= es);
    }
}

/// Round trip: a record at the current schema version decodes to itself from
/// its own encoding, and from any longer buffer that begins with it.
pub proof fn lemma_record_round_trip(r: StorageView, rest: Seq<u8>)
    requires
        record_valid(r),
    ensures
        decode_spec(record_bytes(r)) == Some(r),
        decode_spec(record_bytes(r) + rest) == Some(r),
{
    lemma_auto_spec_u32_to_from_le_bytes();
    assert(record_bytes(r) =~= record_bytes(r) + Seq::<u8>::empty());
    lemma_record_round_trip_with(r, Seq::<u8>::empty());
    lemma_record_round_trip_with(r, rest);
}

proof fn lemma_record_round_trip_with(r: StorageView, rest: Seq<u8>)
    requires
        record_valid(r),
    ensures
        decode_spec(record_bytes(r) + rest) == Some(r),
{
    lemma_auto_spec_u32_to_from_le_bytes();
    let b = record_bytes(r) + rest;
    let h = header_bytes(r);
    if r.initialized {
        assert(b[0] == 1u8);
        assert(b[1] == CURRENT_SCHEMA_VERSION);
        assert(b.subrange(2, 34) =~= r.authority);
        assert(b[34] == r.bump);
        assert(b.subrange(35, 39) =~= spec_u32_to_le_bytes(r.entries.len() as u32));
        assert(b =~= h + entries_bytes(r.entries) + rest);
        lemma_entries_round_trip(r.entries, h, rest);
    } else {
        assert(b[0] == 0u8);
    }
}

proof fn lemma_parsed_entries_valid(b: Seq<u8>, start: int, n: nat)
    requires
        parse_entries(b, start, n) is Some,
    ensures
        parse_entries(b, start, n)->Some_0.0.len() == n,
        forall|i: int|
            0 <= i < n ==> entry_valid(#[trigger] parse_entries(b, start, n)->Some_0.0[i]),
    decreases n,
{
    if n > 0 {
        lemma_parsed_entries_valid(b, start, (n - 1) as nat);
    }
}

/// Whatever a buffer decodes to is a record at the current schema version
/// that the codec can write back.
pub proof fn lemma_decoded_valid(b: Seq<u8>)
    requires
        decode_spec(b) is Some,
    ensures
        record_valid(decode_spec(b)->Some_0),
{
    if b.len() == 0 || b[0] == 0 {
        assert(blank_record().authority.len() == 32);
    } else if b[1] == CURRENT_SCHEMA_VERSION {
        let n = spec_u32_from_le_bytes(b.subrange(35, 39)) as nat;
        lemma_parsed_entries_valid(b, HEADER_LEN as int, n);
    }
}

proof fn lemma_entries_bytes_step(es: Seq<EntryView>, i: int)
    requires
        0 <= i < es.len(),
        es[i].owner.len() == 32,
        es[i].storage.len() == 32,
    ensures
        entries_bytes(es.take(i + 1)).len() == entries_bytes(es.take(i)).len() + entry_len(es[i]),
{
    lemma_auto_spec_u32_to_from_le_bytes();
    assert(es.take(i + 1).drop_last() =~= es.take(i));
}

proof fn lemma_entries_bytes_prefix(es: Seq<EntryView>, i: int)
    requires
        0 <= i <= es.len(),
        forall|k: int| 0 <= k < es.len() ==> (#[trigger] es[k]).owner.len() == 32 && es[k].storage.len() == 32,
    ensures
        entries_bytes(es.take(i)).len() <= entries_bytes(es).len(),
    decreases es.len() - i,
{
    if i == es.len() {
        assert(es.take(i) =~= es);
    } else {
        lemma_entries_bytes_step(es, i);
        lemma_entries_bytes_prefix(es, i + 1);
    }
}

} // verus!
