//! Decoding of the raw change-journal buffer into typed change records.
//!
//! A record starts with a fixed header (version 2: 60 bytes, version 3:
//! 76 bytes) that carries its total length, its version, the entry and
//! parent references, the journal sequence number, the timestamp, the
//! reason flags and the offset and length of a UTF-16 name that follows.
//! All integers are little endian.
use vstd::prelude::*;

verus! {

/// The identity of one incarnation of a file-system entry: its index in the
/// entry table and the reuse counter of that slot.  `extended` holds the
/// upper half of a 128-bit identifier (version 3 records); it is zero for
/// 64-bit references.
#[derive(Clone, Copy, Debug, PartialEq, Eq, Structural)]
pub struct EntryReference {
    pub entry: u64,
    pub sequence: u16,
    pub extended: u64,
}

/// The span of the entry index in a 64-bit reference: the low 48 bits.
pub const ENTRY_INDEX_SPAN: u64 = 0x1_0000_0000_0000;

impl EntryReference {
    /// The reference that a 64-bit file index stands for: its low 48 bits
    /// are the entry index, its high 16 bits the reuse counter.
    pub fn from_file_index(index: u64) -> (r: EntryReference)
        ensures
            r.entry == index % ENTRY_INDEX_SPAN,
            r.sequence == index / ENTRY_INDEX_SPAN,
            r.extended == 0,
    {
        EntryReference {
            entry: index % ENTRY_INDEX_SPAN,
            sequence: (index / ENTRY_INDEX_SPAN) as u16,
            extended: 0,
        }
    }

    /// Whether a 64-bit file index still names this incarnation of the
    /// entry: same index, same reuse counter.
    pub fn names_same_entry(&self, index: u64) -> (r: bool)
        ensures
            r == (self.extended == 0 && self.entry == index % ENTRY_INDEX_SPAN && self.sequence
                == index / ENTRY_INDEX_SPAN),
    {
        let other = EntryReference::from_file_index(index);
        *self == other
    }
}

/// Why a buffer could not be decoded.
#[derive(Clone, Copy, Debug, PartialEq, Eq, Structural)]
pub enum DecodeError {
    /// A record's declared length does not fit its header or the buffer.
    MalformedRecord,
    /// A record carries a major version this decoder does not know.
    UnsupportedVersion(u16),
}

/// One decoded journal record.
#[derive(Debug)]
pub struct ChangeRecord {
    pub major_version: u16,
    pub minor_version: u16,
    pub reference: EntryReference,
    pub parent: EntryReference,
    pub usn: u64,
    pub timestamp: u64,
    pub reason: u32,
    pub name: Vec<u16>,
}

/// The mathematical value of a [`ChangeRecord`].
pub struct RecordModel {
    pub major_version: u16,
    pub minor_version: u16,
    pub reference: EntryReference,
    pub parent: EntryReference,
    pub usn: u64,
    pub timestamp: u64,
    pub reason: u32,
    pub name: Seq<u16>,
}

impl View for ChangeRecord {
    type V = RecordModel;

    open spec fn view(&self) -> RecordModel {
        RecordModel {
            major_version: self.major_version,
            minor_version: self.minor_version,
            reference: self.reference,
            parent: self.parent,
            usn: self.usn,
            timestamp: self.timestamp,
            reason: self.reason,
            name: self.name@,
        }
    }
}

pub open spec fn records_view(v: Seq<ChangeRecord>) -> Seq<RecordModel> {
    v.map_values(|c: ChangeRecord| c@)
}

pub open spec fn le16(s: Seq<u8>, i: int) -> int {
    s[i] + 256 * s[i + 1]
}

pub open spec fn le32(s: Seq<u8>, i: int) -> int {
    le16(s, i) + 65536 * le16(s, i + 2)
}

pub open spec fn le48(s: Seq<u8>, i: int) -> int {
    le32(s, i) + 4294967296 * le16(s, i + 4)
}

pub open spec fn le64(s: Seq<u8>, i: int) -> int {
    le32(s, i) + 4294967296 * le32(s, i + 4)
}

/// Size of the fixed header of version 2 records.
pub const V2_HEADER_LEN: usize = 60;

/// Size of the fixed header of version 3 records.
pub const V3_HEADER_LEN: usize = 76;

/// A 64-bit reference at `i`: a 48-bit index and a 16-bit reuse counter.
pub open spec fn reference_at(s: Seq<u8>, i: int) -> EntryReference {
    EntryReference { entry: le48(s, i) as u64, sequence: le16(s, i + 6) as u16, extended: 0 }
}

/// A 128-bit reference at `i`: its lower half as [`reference_at`], then the upper half.
pub open spec fn reference128_at(s: Seq<u8>, i: int) -> EntryReference {
    EntryReference {
        entry: le48(s, i) as u64,
        sequence: le16(s, i + 6) as u16,
        extended: le64(s, i + 8) as u64,
    }
}

pub open spec fn header_len(major: int) -> int {
    if major == 2 {
        V2_HEADER_LEN as int
    } else {
        V3_HEADER_LEN as int
    }
}

/// Where a header field of a record of the given major version starts.
/// The fields after the references are laid out alike in both versions,
/// shifted by the 16 extra bytes of the 128-bit references.
pub open spec fn field_base(major: int) -> int {
    if major == 2 {
        24
    } else {
        40
    }
}

/// The record that starts at the front of `s`, as it is laid out there.
pub open spec fn record_model(s: Seq<u8>) -> RecordModel {
    let major = le16(s, 4);
    let b = field_base(major);
    let name_len = le16(s, b + 32);
    let name_off = le16(s, b + 34);
    RecordModel {
        major_version: major as u16,
        minor_version: le16(s, 6) as u16,
        reference: if major == 2 { reference_at(s, 8) } else { reference128_at(s, 8) },
        parent: if major == 2 { reference_at(s, 16) } else { reference128_at(s, 24) },
        usn: le64(s, b) as u64,
        timestamp: le64(s, b + 8) as u64,
        reason: le32(s, b + 16) as u32,
        name: Seq::new((name_len / 2) as nat, |j: int| le16(s, name_off + 2 * j) as u16),
    }
}

/// Decodes the record at the front of `s`: the record and its length, or
/// why it cannot be decoded.
#[verifier::opaque]
pub open spec fn parse_one(s: Seq<u8>) -> Result<(RecordModel, int), DecodeError> {
    if s.len() < 8 {
        Err(DecodeError::MalformedRecord)
    } else if le32(s, 0) > s.len() {
        Err(DecodeError::MalformedRecord)
    } else if le16(s, 4) != 2 && le16(s, 4) != 3 {
        Err(DecodeError::UnsupportedVersion(le16(s, 4) as u16))
    } else if le32(s, 0) < header_len(le16(s, 4)) {
        Err(DecodeError::MalformedRecord)
    } else if le16(s, field_base(le16(s, 4)) + 34) + le16(s, field_base(le16(s, 4)) + 32) > le32(
        s,
        0,
    ) {
        Err(DecodeError::MalformedRecord)
    } else {
        Ok((record_model(s), le32(s, 0)))
    }
}

pub open spec fn prepend(
    acc: Seq<RecordModel>,
    r: Result<Seq<RecordModel>, DecodeError>,
) -> Result<Seq<RecordModel>, DecodeError> {
    match r {
        Ok(rs) => Ok(acc + rs),
        Err(e) => Err(e),
    }
}

/// Decodes the records laid back to back in `s`: all of them in order, or
/// the error of the first that cannot be decoded (and then no record).
pub open spec fn parse_records(s: Seq<u8>) -> Result<Seq<RecordModel>, DecodeError>
    decreases s.len(),
{
    if s.len() == 0 {
        Ok(Seq::empty())
    } else {
        match parse_one(s) {
            Err(e) => Err(e),
            Ok((m, len)) => if 0 < len <= s.len() {
                prepend(seq![m], parse_records(s.subrange(len, s.len() as int)))
            } else {
                Err(DecodeError::MalformedRecord)
            },
        }
    }
}

fn read_u16(buf: &[u8], i: usize) -> (r: u16)
    requires
        i + 2 <= buf.len(),
    ensures
        r == le16(buf@, i as int),
{
    buf[i] as u16 + (buf[i + 1] as u16) * 256
}

fn read_u32(buf: &[u8], i: usize) -> (r: u32)
    requires
        i + 4 <= buf.len(),
    ensures
        r == le32(buf@, i as int),
{
    read_u16(buf, i) as u32 + (read_u16(buf, i + 2) as u32) * 65536
}

fn read_u48(buf: &[u8], i: usize) -> (r: u64)
    requires
        i + 6 <= buf.len(),
    ensures
        r == le48(buf@, i as int),
{
    read_u32(buf, i) as u64 + (read_u16(buf, i + 4) as u64) * 4294967296
}

fn read_u64(buf: &[u8], i: usize) -> (r: u64)
    requires
        i + 8 <= buf.len(),
    ensures
        r == le64(buf@, i as int),
{
    read_u32(buf, i) as u64 + (read_u32(buf, i + 4) as u64) * 4294967296
}


proof fn lemma_shifted_reads(b: Seq<u8>, p: int)
    requires
        0 <= p <= b.len(),
    ensures
        forall|k: int|
            0 <= k && p + k + 2 <= b.len() ==> #[trigger] le16(b.subrange(p, b.len() as int), k)
                == le16(b, p + k),
        forall|k: int|
            0 <= k && p + k + 4 <= b.len() ==> #[trigger] le32(b.subrange(p, b.len() as int), k)
                == le32(b, p + k),
        forall|k: int|
            0 <= k && p + k + 8 <= b.len() ==> #[trigger] le64(b.subrange(p, b.len() as int), k)
                == le64(b, p + k),
{
}

/// Reads the entry reference at `at` of the record that starts at `p`.
fn read_reference(buf: &[u8], p: usize, at: usize, wide: bool) -> (r: EntryReference)
    requires
        p + at + (if wide { 16int } else { 8int }) <= buf.len(),
    ensures
        ({
            let s = buf@.subrange(p as int, buf@.len() as int);
            r == if wide { reference128_at(s, at as int) } else { reference_at(s, at as int) }
        }),
{
    proof {
        lemma_shifted_reads(buf@, p as int);
    }
    let ghost s = buf@.subrange(p as int, buf@.len() as int);
    let entry = read_u48(buf, p + at);
    let sequence = read_u16(buf, p + at + 6);
    assert(le32(s, at as int) == le32(buf@, p + at));
    assert(le16(s, at + 4) == le16(buf@, p + at + 4));
    assert(le16(s, at + 6) == le16(buf@, p + at + 6));
    let extended = if wide {
        read_u64(buf, p + at + 8)
    } else {
        0
    };
    EntryReference { entry, sequence, extended }
}

/// Reads `units` UTF-16 code units at `off` of the record that starts at `p`.
fn read_name(buf: &[u8], p: usize, off: usize, units: usize) -> (r: Vec<u16>)
    requires
        p + off + 2 * units <= buf.len(),
    ensures
        r@ =~= Seq::new(
            units as nat,
            |k: int| le16(buf@.subrange(p as int, buf@.len() as int), off + 2 * k) as u16,
        ),
{
    let ghost s = buf@.subrange(p as int, buf@.len() as int);
    proof {
        lemma_shifted_reads(buf@, p as int);
    }
    let mut name: Vec<u16> = Vec::new();
    let mut j: usize = 0;
    while j < units
        invariant
            j <= units,
            p + off + 2 * units <= buf.len(),
            s == buf@.subrange(p as int, buf@.len() as int),
            forall|k: int|
                0 <= k && p + k + 2 <= buf@.len() ==> #[trigger] le16(s, k) == le16(buf@, p + k),
            name@ =~= Seq::new(j as nat, |k: int| le16(s, off + 2 * k) as u16),
        decreases units - j,
    {
        let unit = read_u16(buf, p + off + 2 * j);
        assert(le16(s, off + 2 * j) == le16(buf@, p + off + 2 * j));
        name.push(unit);
        j = j + 1;
    }
    name
}

/// Decodes the record that starts at `p`.
fn parse_at(buf: &[u8], p: usize) -> (r: Result<(ChangeRecord, usize), DecodeError>)
    requires
        p <= buf.len(),
    ensures
        ({
            let s = buf@.subrange(p as int, buf@.len() as int);
            match r {
                Ok((c, len)) => parse_one(s) == Ok::<(RecordModel, int), DecodeError>((c@, len as int))
                    && 0 < len <= s.len(),
                Err(e) => parse_one(s) == Err::<(RecordModel, int), DecodeError>(e),
            }
        }),
{
    let ghost s = buf@.subrange(p as int, buf@.len() as int);
    reveal(parse_one);
    let n = buf.len();
    if n - p < 8 {
        return Err(DecodeError::MalformedRecord);
    }
    let len = read_u32(buf, p) as usize;
    assert(le32(s, 0) == le32(buf@, p as int));
    if len > n - p {
        return Err(DecodeError::MalformedRecord);
    }
    let major = read_u16(buf, p + 4);
    assert(le16(s, 4) == le16(buf@, p + 4));
    if major != 2 && major != 3 {
        return Err(DecodeError::UnsupportedVersion(major));
    }
    let head = if major == 2 {
        V2_HEADER_LEN
    } else {
        V3_HEADER_LEN
    };
    if len < head {
        return Err(DecodeError::MalformedRecord);
    }
    let b: usize = if major == 2 {
        24
    } else {
        40
    };
    let name_len = read_u16(buf, p + b + 32) as usize;
    let name_off = read_u16(buf, p + b + 34) as usize;
    assert(le16(s, b + 32) == le16(buf@, p + b + 32));
    assert(le16(s, b + 34) == le16(buf@, p + b + 34));
    if name_off + name_len > len {
        return Err(DecodeError::MalformedRecord);
    }
    let (reference, parent) = if major == 2 {
        (read_reference(buf, p, 8, false), read_reference(buf, p, 16, false))
    } else {
        (read_reference(buf, p, 8, true), read_reference(buf, p, 24, true))
    };
    let name = read_name(buf, p, name_off, name_len / 2);
    proof {
        lemma_shifted_reads(buf@, p as int);
    }
    let rec = ChangeRecord {
        major_version: major,
        minor_version: read_u16(buf, p + 6),
        reference,
        parent,
        usn: read_u64(buf, p + b),
        timestamp: read_u64(buf, p + b + 8),
        reason: read_u32(buf, p + b + 16),
        name,
    };
    assert(rec@ == record_model(s));
    Ok((rec, len))
}

/// Decodes the records that lie back to back in `buf` from `start` on.
fn decode_from(buf: &[u8], start: usize) -> (r: Result<Vec<ChangeRecord>, DecodeError>)
    requires
        start <= buf.len(),
    ensures
        match r {
            Ok(v) => parse_records(buf@.subrange(start as int, buf@.len() as int)) == Ok::<
                Seq<RecordModel>,
                DecodeError,
            >(records_view(v@)),
            Err(e) => parse_records(buf@.subrange(start as int, buf@.len() as int)) == Err::<
                Seq<RecordModel>,
                DecodeError,
            >(e),
        },
{
    let ghost whole = buf@.subrange(start as int, buf@.len() as int);
    let n = buf.len();
    let mut out: Vec<ChangeRecord> = Vec::new();
    let mut p = start;
    while p < n
        invariant
            start <= p <= n,
            n == buf@.len(),
            whole == buf@.subrange(start as int, n as int),
            parse_records(whole) == prepend(
                records_view(out@),
                parse_records(buf@.subrange(p as int, n as int)),
            ),
        decreases n - p,
    {
        let ghost s = buf@.subrange(p as int, n as int);
        match parse_at(buf, p) {
            Ok((rec, len)) => {
                let ghost m = rec@;
                assert(s.subrange(len as int, s.len() as int) =~= buf@.subrange(p + len, n as int));
                assert(records_view(out@).push(m) =~= records_view(out@.push(rec)));
                assert(parse_records(s) == prepend(seq![m], parse_records(buf@.subrange(p + len, n as int))));
                proof {
                    match parse_records(buf@.subrange(p + len, n as int)) {
                        Ok(rs) => {
                            assert(records_view(out@) + (seq![m] + rs) =~= records_view(out@.push(rec)) + rs);
                        },
                        Err(_) => {},
                    }
                }
                out.push(rec);
                p = p + len;
            },
            Err(e) => {
                return Err(e);
            },
        }
    }
    assert(buf@.subrange(p as int, n as int) =~= Seq::<u8>::empty());
    assert(records_view(out@) + Seq::<RecordModel>::empty() =~= records_view(out@));
    Ok(out)
}

/// Decodes a buffer of change records laid back to back: every record in
/// order, or the error of the first that cannot be decoded and no record.
pub fn decode_records(buf: &[u8]) -> (r: Result<Vec<ChangeRecord>, DecodeError>)
    ensures
        match r {
            Ok(v) => parse_records(buf@) == Ok::<Seq<RecordModel>, DecodeError>(records_view(v@)),
            Err(e) => parse_records(buf@) == Err::<Seq<RecordModel>, DecodeError>(e),
        },
{
    assert(buf@.subrange(0, buf@.len() as int) =~= buf@);
    decode_from(buf, 0)
}

/// What one journal read hands back: the cursor to resume from and the
/// records read.
#[derive(Debug)]
pub struct ReadBatch {
    pub next_usn: u64,
    pub records: Vec<ChangeRecord>,
}

/// Decodes the output of a journal read: the next cursor in its first eight
/// bytes, then the records laid back to back.
pub fn decode_batch(buf: &[u8]) -> (r: Result<ReadBatch, DecodeError>)
    ensures
        buf@.len() < 8 ==> r == Err::<ReadBatch, DecodeError>(DecodeError::MalformedRecord),
        buf@.len() >= 8 ==> match r {
            Ok(b) => b.next_usn == le64(buf@, 0) && parse_records(
                buf@.subrange(8, buf@.len() as int),
            ) == Ok::<Seq<RecordModel>, DecodeError>(records_view(b.records@)),
            Err(e) => parse_records(buf@.subrange(8, buf@.len() as int)) == Err::<
                Seq<RecordModel>,
                DecodeError,
            >(e),
        },
{
    if buf.len() < 8 {
        return Err(DecodeError::MalformedRecord);
    }
    let next_usn = read_u64(buf, 0);
    match decode_from(buf, 8) {
        Ok(records) => Ok(ReadBatch { next_usn, records }),
        Err(e) => Err(e),
    }
}

/// A record laid out in `c` and filling it exactly: the length it declares
/// is its own, the version is known, the header fits, and the name lies
/// inside the record.
pub open spec fn well_formed_record(c: Seq<u8>) -> bool {
    &&& c.len() >= 8
    &&& le32(c, 0) == c.len()
    &&& (le16(c, 4) == 2 || le16(c, 4) == 3)
    &&& c.len() >= header_len(le16(c, 4))
    &&& le16(c, field_base(le16(c, 4)) + 34) + le16(c, field_base(le16(c, 4)) + 32) <= c.len()
}

proof fn lemma_record_then_rest(c: Seq<u8>, rest: Seq<u8>)
    requires
        well_formed_record(c),
    ensures
        parse_one(c + rest) == Ok::<(RecordModel, int), DecodeError>((record_model(c), c.len() as int)),
        (c + rest).subrange(c.len() as int, (c + rest).len() as int) == rest,
{
    reveal(parse_one);
    let s = c + rest;
    assert forall|k: int| 0 <= k && k + 2 <= c.len() implies #[trigger] le16(s, k) == le16(c, k) by {}
    assert(le32(s, 0) == le32(c, 0));
    let b = field_base(le16(c, 4));
    assert(le64(s, b) == le64(c, b));
    assert(le64(s, b + 8) == le64(c, b + 8));
    assert(le32(s, b + 16) == le32(c, b + 16));
    assert(le32(s, 8) == le32(c, 8));
    assert(le32(s, 16) == le32(c, 16));
    assert(le32(s, 24) == le32(c, 24));
    assert(le64(s, 16) == le64(c, 16));
    assert(le64(s, 32) == le64(c, 32));
    assert(record_model(s).name =~= record_model(c).name);
    assert(s.subrange(c.len() as int, s.len() as int) =~= rest);
}

/// Records laid back to back in front of any `tail` decode one by one, in
/// order, each as it is laid out; what follows them decides the rest.
pub proof fn lemma_decode_prefix(chunks: Seq<Seq<u8>>, tail: Seq<u8>)
    requires
        forall|i: int| 0 <= i < chunks.len() ==> well_formed_record(#[trigger] chunks[i]),
    ensures
        parse_records(chunks.flatten() + tail) == prepend(
            Seq::new(chunks.len(), |i: int| record_model(chunks[i])),
            parse_records(tail),
        ),
    decreases chunks.len(),
{
    let models = Seq::new(chunks.len(), |i: int| record_model(chunks[i]));
    if chunks.len() == 0 {
        assert(chunks.flatten() + tail =~= tail);
        match parse_records(tail) {
            Ok(rs) => {
                assert(models + rs =~= rs);
            },
            Err(_) => {},
        }
    } else {
        let c = chunks[0];
        let rest = chunks.drop_first();
        assert(forall|i: int| 0 <= i < rest.len() ==> rest[i] == chunks[i + 1]);
        lemma_decode_prefix(rest, tail);
        let s = chunks.flatten() + tail;
        assert(s =~= c + (rest.flatten() + tail));
        lemma_record_then_rest(c, rest.flatten() + tail);
        assert(parse_records(s) == prepend(seq![record_model(c)], parse_records(rest.flatten() + tail)));
        let rest_models = Seq::new(rest.len(), |i: int| record_model(rest[i]));
        match parse_records(tail) {
            Ok(rs) => {
                assert(models =~= seq![record_model(c)] + rest_models);
                assert(seq![record_model(c)] + (rest_models + rs) =~= models + rs);
            },
            Err(_) => {},
        }
    }
}

/// A buffer of `n` well-formed records laid back to back decodes to exactly
/// `n` records, in order, each carrying the entry reference and the reason
/// flags encoded in its bytes.
pub proof fn lemma_decode_back_to_back(chunks: Seq<Seq<u8>>)
    requires
        forall|i: int| 0 <= i < chunks.len() ==> well_formed_record(#[trigger] chunks[i]),
    ensures
        parse_records(chunks.flatten()) matches Ok(rs) && rs.len() == chunks.len() && forall|i: int|
            0 <= i < chunks.len() ==> {
                let c = #[trigger] chunks[i];
                &&& rs[i] == record_model(c)
                &&& rs[i].reference == if le16(c, 4) == 2 {
                    reference_at(c, 8)
                } else {
                    reference128_at(c, 8)
                }
                &&& rs[i].reason == le32(c, field_base(le16(c, 4)) + 16)
            },
{
    lemma_decode_prefix(chunks, Seq::empty());
    assert(chunks.flatten() + Seq::<u8>::empty() =~= chunks.flatten());
    let models = Seq::new(chunks.len(), |i: int| record_model(chunks[i]));
    assert(models + Seq::<RecordModel>::empty() =~= models);
}

/// Where a record declares a length beyond the end of the buffer, decoding
/// fails as malformed, whatever well-formed records come before it: no
/// record of the buffer is handed out.
pub proof fn lemma_decode_overlong(chunks: Seq<Seq<u8>>, tail: Seq<u8>)
    requires
        forall|i: int| 0 <= i < chunks.len() ==> well_formed_record(#[trigger] chunks[i]),
        tail.len() >= 8,
        le32(tail, 0) > tail.len(),
    ensures
        parse_records(chunks.flatten() + tail) == Err::<Seq<RecordModel>, DecodeError>(
            DecodeError::MalformedRecord,
        ),
{
    reveal(parse_one);
    lemma_decode_prefix(chunks, tail);
}

} // verus!
