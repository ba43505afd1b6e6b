//! Recordings of HID traffic.
//!
//! A recording is the magic `SMXHID\x01` followed by records `[type:1]
//! [timestamp_us:8][size:2][data:size]`, low bytes first. The type is `R` for a
//! packet that was read and `W` for one that was written.

use vstd::prelude::*;

use crate::protocol::{copy_range, from_le16, le16, read_le16};

verus! {

/// Bytes of the magic.
pub const MAGIC_SIZE: usize = 7;

/// Bytes of a record before its data.
pub const RECORD_HEADER_SIZE: usize = 11;

/// Type of a packet that was read, `R`.
pub const RECORD_READ: u8 = 0x52;

/// Type of a packet that was written, `W`.
pub const RECORD_WRITE: u8 = 0x57;

/// The magic that a recording starts with.
pub open spec fn magic() -> Seq<u8> {
    seq![0x53u8, 0x4Du8, 0x58u8, 0x48u8, 0x49u8, 0x44u8, 0x01u8]
}

/// A packet in a recording.
#[derive(Clone, Debug)]
pub struct HidCaptureRecord {
    /// `R` or `W`.
    pub record_type: u8,
    pub timestamp_us: u64,
    pub data: Vec<u8>,
}

/// A packet in a recording as a value.
#[verifier::ext_equal]
pub ghost struct RecordView {
    pub record_type: u8,
    pub timestamp_us: u64,
    pub data: Seq<u8>,
}

impl View for HidCaptureRecord {
    type V = RecordView;

    open spec fn view(&self) -> RecordView {
        RecordView {
            record_type: self.record_type,
            timestamp_us: self.timestamp_us,
            data: self.data@,
        }
    }
}

/// Records as values.
pub open spec fn record_views(records: Seq<HidCaptureRecord>) -> Seq<RecordView> {
    Seq::new(records.len(), |i: int| records[i]@)
}

/// The lowest `n` bytes of a number, low byte first.
pub open spec fn le_bytes(v: int, n: int) -> Seq<u8>
    decreases n,
{
    if n <= 0 {
        Seq::empty()
    } else {
        seq![(v % 256) as u8] + le_bytes(v / 256, n - 1)
    }
}

/// The number that bytes make, low byte first.
pub open spec fn le_value(b: Seq<u8>) -> int
    decreases b.len(),
{
    if b.len() == 0 {
        0
    } else {
        b[0] + 256 * le_value(b.skip(1))
    }
}

/// A record as it stands in a recording.
pub open spec fn record_bytes(r: RecordView) -> Seq<u8> {
    seq![r.record_type] + le_bytes(r.timestamp_us as int, 8) + le16((r.data.len() % 65536) as u16)
        + r.data
}

/// The first `n` records as they stand in a recording.
pub open spec fn records_bytes(records: Seq<RecordView>, n: int) -> Seq<u8>
    decreases n,
{
    if n <= 0 {
        Seq::empty()
    } else {
        records_bytes(records, n - 1) + record_bytes(records[n - 1])
    }
}

/// Whether a whole record is at the front.
pub open spec fn has_record(b: Seq<u8>) -> bool {
    b.len() >= RECORD_HEADER_SIZE && b.len() >= RECORD_HEADER_SIZE + from_le16(b[9], b[10])
}

/// Length of the record at the front.
pub open spec fn record_len(b: Seq<u8>) -> int {
    RECORD_HEADER_SIZE + from_le16(b[9], b[10])
}

/// The record at the front.
pub open spec fn front_record(b: Seq<u8>) -> RecordView {
    RecordView {
        record_type: b[0],
        timestamp_us: le_value(b.subrange(1, 9)) as u64,
        data: b.subrange(11, record_len(b)),
    }
}

/// The whole records at the front; what follows them is ignored.
pub open spec fn records_of(b: Seq<u8>) -> Seq<RecordView>
    decreases b.len(),
{
    if !has_record(b) {
        Seq::empty()
    } else {
        seq![front_record(b)] + records_of(b.skip(record_len(b)))
    }
}

/// The records of a recording; none if it does not start with the magic.
pub open spec fn capture_of(b: Seq<u8>) -> Seq<RecordView> {
    if b.len() >= MAGIC_SIZE && b.take(7) == magic() {
        records_of(b.skip(7))
    } else {
        Seq::empty()
    }
}

/// Starts a recording.
pub fn capture_header() -> (b: Vec<u8>)
    ensures
        b@ == magic(),
{
    let b: Vec<u8> = vec![0x53u8, 0x4Du8, 0x58u8, 0x48u8, 0x49u8, 0x44u8, 0x01u8];
    assert(b@ =~= magic());
    b
}

/// Writes a record.
pub fn encode_record(record_type: u8, timestamp_us: u64, data: &[u8]) -> (b: Vec<u8>)
    ensures
        b@ == record_bytes(RecordView { record_type, timestamp_us, data: data@ }),
{
    let mut b: Vec<u8> = Vec::new();
    b.push(record_type);
    let mut left: u64 = timestamp_us;
    let mut i: usize = 0;
    assert(b@ + le_bytes(left as int, 8) =~= seq![record_type] + le_bytes(timestamp_us as int, 8));
    while i < 8
        invariant
            i <= 8,
            b@ + le_bytes(left as int, 8 - i) == seq![record_type] + le_bytes(
                timestamp_us as int,
                8,
            ),
        decreases 8 - i,
    {
        let ghost before = b@;
        let ghost v = left as int;
        b.push((left % 256) as u8);
        left = left / 256;
        i = i + 1;
        assert(b@ + le_bytes(left as int, 8 - i) =~= before + (seq![(v % 256) as u8] + le_bytes(
            v / 256,
            8 - i,
        )));
    }
    assert(b@ =~= seq![record_type] + le_bytes(timestamp_us as int, 8));
    let size: u16 = (data.len() % 65536) as u16;
    b.push((size % 256) as u8);
    b.push((size / 256) as u8);
    b.extend_from_slice(data);
    assert(b@ =~= record_bytes(RecordView { record_type, timestamp_us, data: data@ }));
    b
}

/// The record of a read or write, if it is one to keep: empty ones are not.
pub fn encode_transfer(record_type: u8, timestamp_us: u64, data: &[u8]) -> (b: Option<Vec<u8>>)
    ensures
        match b {
            Some(b) => data@.len() > 0 && b@ == record_bytes(
                RecordView { record_type, timestamp_us, data: data@ },
            ),
            None => data@.len() == 0,
        },
{
    if data.len() == 0 {
        None
    } else {
        Some(encode_record(record_type, timestamp_us, data))
    }
}

proof fn lemma_le_value_bound(b: Seq<u8>)
    requires
        b.len() <= 8,
    ensures
        0 <= le_value(b) < limit(b.len() as int),
    decreases b.len(),
{
    if b.len() > 0 {
        lemma_le_value_bound(b.skip(1));
    }
}

/// The first number that does not fit into `n` bytes.
spec fn limit(n: int) -> int
    decreases n,
{
    if n <= 0 {
        1
    } else {
        256 * limit(n - 1)
    }
}

proof fn lemma_limit_grows(n: int, m: int)
    requires
        0 <= n <= m,
    ensures
        0 < limit(n) <= limit(m),
    decreases m,
{
    if n < m {
        lemma_limit_grows(n, m - 1);
    } else if n > 0 {
        lemma_limit_grows(n - 1, n - 1);
    }
}

proof fn lemma_limit_8()
    ensures
        limit(8) == 0x1_0000_0000_0000_0000,
{
    reveal_with_fuel(limit, 9);
}

/// Reads 8 bytes, low byte first.
fn read_le64(b: &[u8], at: usize) -> (v: u64)
    requires
        at + 8 <= b@.len(),
    ensures
        v == le_value(b@.subrange(at as int, at + 8)),
{
    let total: usize = b.len();
    let ghost field = b@.subrange(at as int, at + 8);
    let mut v: u64 = 0;
    let mut left: usize = 8;
    assert(field.skip(8) =~= Seq::empty());
    while left > 0
        invariant
            left <= 8,
            at + 8 <= total,
            total == b@.len(),
            field == b@.subrange(at as int, at + 8),
            v == le_value(field.skip(left as int)),
        decreases left,
    {
        proof {
            lemma_le_value_bound(field.skip(left as int));
            lemma_limit_grows(8 - left, 7);
            assert(limit(8) == 256 * limit(7));
            lemma_limit_8();
            assert(field.skip(left - 1).skip(1) =~= field.skip(left as int));
            assert(field.skip(left - 1)[0] == b@[at + left - 1]);
        }
        left = left - 1;
        v = b[at + left] as u64 + 256 * v;
    }
    assert(field.skip(0) =~= field);
    v
}

/// Reads a recording. What follows the last whole record is ignored.
pub fn parse_hid_capture(contents: &[u8]) -> (records: Vec<HidCaptureRecord>)
    ensures
        record_views(records@) == capture_of(contents@),
{
    let mut records: Vec<HidCaptureRecord> = Vec::new();
    assert(record_views(records@) =~= Seq::empty());
    if contents.len() < MAGIC_SIZE {
        return records;
    }
    let wanted = capture_header();
    let mut i: usize = 0;
    while i < MAGIC_SIZE
        invariant
            i <= MAGIC_SIZE,
            contents@.len() >= MAGIC_SIZE,
            wanted@ == magic(),
            record_views(records@) == Seq::<RecordView>::empty(),
            forall|j: int| 0 <= j < i ==> contents@[j] == magic()[j],
        decreases MAGIC_SIZE - i,
    {
        if contents[i] != wanted[i] {
            assert(contents@.take(7)[i as int] != magic()[i as int]);
            return records;
        }
        i = i + 1;
    }
    assert(contents@.take(7) =~= magic());
    let ghost body = contents@.skip(7);
    let ghost all = records_of(body);
    let mut offset: usize = MAGIC_SIZE;
    assert(record_views(records@) + records_of(contents@.skip(offset as int)) =~= all);
    while contents.len() - offset >= RECORD_HEADER_SIZE
        invariant
            MAGIC_SIZE <= offset <= contents@.len(),
            record_views(records@) + records_of(contents@.skip(offset as int)) == all,
        ensures
            !has_record(contents@.skip(offset as int)),
        decreases contents@.len() - offset,
    {
        let ghost rest = contents@.skip(offset as int);
        let size: usize = read_le16(contents[offset + 9], contents[offset + 10]) as usize;
        assert(rest[9] == contents@[offset + 9] && rest[10] == contents@[offset + 10]);
        if contents.len() - offset - RECORD_HEADER_SIZE < size {
            break ;
        }
        let record = HidCaptureRecord {
            record_type: contents[offset],
            timestamp_us: read_le64(contents, offset + 1),
            data: copy_range(
                contents,
                offset + RECORD_HEADER_SIZE,
                offset + RECORD_HEADER_SIZE + size,
            ),
        };
        let ghost before = records@;
        records.push(record);
        offset = offset + RECORD_HEADER_SIZE + size;
        proof {
            assert(rest.subrange(1, 9) =~= contents@.subrange(
                offset - size - 10,
                offset - size - 2,
            ));
            assert(rest.subrange(11, 11 + size) =~= contents@.subrange(
                offset - size,
                offset as int,
            ));
            assert(front_record(rest) == record@);
            assert(rest.skip(record_len(rest)) =~= contents@.skip(offset as int));
            assert(record_views(records@) =~= record_views(before).push(record@));
            assert(record_views(records@) + records_of(contents@.skip(offset as int))
                =~= record_views(before) + (seq![record@] + records_of(
                contents@.skip(offset as int),
            )));
        }
    }
    assert(record_views(records@) =~= all);
    records
}

// ─── Which file ──────────────────────────────────────────────────────────────

/// The devices that are recorded, in the order of their files. A device is opened
/// more than once; all its traffic goes to one file.
pub struct SinkTable {
    pub paths: Vec<String>,
}

/// The paths of recorded devices.
pub open spec fn sink_paths(t: SinkTable) -> Seq<Seq<char>> {
    Seq::new(t.paths@.len(), |i: int| t.paths@[i]@)
}

impl SinkTable {
    /// No device is recorded yet.
    pub fn new() -> (t: Self)
        ensures
            sink_paths(t).len() == 0,
    {
        SinkTable { paths: Vec::new() }
    }

    /// The number of a device's file, if it has one.
    pub fn find(&self, path: &String) -> (i: Option<usize>)
        ensures
            match i {
                Some(i) => crate::text::is_first_index(sink_paths(*self), path@, i as int),
                None => !sink_paths(*self).contains(path@),
            },
    {
        let mut i: usize = 0;
        while i < self.paths.len()
            invariant
                i <= self.paths@.len(),
                forall|j: int| 0 <= j < i ==> #[trigger] sink_paths(*self)[j] != path@,
            decreases self.paths@.len() - i,
        {
            assert(sink_paths(*self)[i as int] == self.paths@[i as int]@);
            if self.paths[i] == *path {
                return Some(i);
            }
            i = i + 1;
        }
        None
    }

    /// The number that the next new file gets.
    pub fn next(&self) -> (n: usize)
        ensures
            n == sink_paths(*self).len(),
    {
        self.paths.len()
    }

    /// Notes that the next file was made for a device.
    pub fn add(&mut self, path: String)
        ensures
            sink_paths(*final(self)) == sink_paths(*old(self)).push(path@),
    {
        self.paths.push(path);
        assert(sink_paths(*self) =~= sink_paths(*old(self)).push(path@));
    }
}

// ─── Laws ────────────────────────────────────────────────────────────────────

proof fn lemma_le_round_trip(v: int, n: int)
    requires
        0 <= v < limit(n),
        0 <= n,
    ensures
        le_bytes(v, n).len() == n,
        le_value(le_bytes(v, n)) == v,
    decreases n,
{
    if n > 0 {
        lemma_le_round_trip(v / 256, n - 1);
        assert(le_bytes(v, n).skip(1) =~= le_bytes(v / 256, n - 1));
    }
}

/// A record is read as it was written, whatever follows it, if its data is short
/// enough for the size field.
pub proof fn law_record_round_trip(r: RecordView, rest: Seq<u8>)
    requires
        r.data.len() <= u16::MAX,
    ensures
        has_record(record_bytes(r) + rest),
        front_record(record_bytes(r) + rest) == r,
        (record_bytes(r) + rest).skip(record_len(record_bytes(r) + rest)) == rest,
{
    lemma_limit_8();
    lemma_le_round_trip(r.timestamp_us as int, 8);
    let b = record_bytes(r) + rest;
    let size = r.data.len() as u16;
    assert(b[9] == le16(size)[0]);
    assert(b[10] == le16(size)[1]);
    crate::protocol::lemma_le16_round_trip(size);
    assert(b.subrange(1, 9) =~= le_bytes(r.timestamp_us as int, 8));
    assert(b.subrange(11, record_len(b)) =~= r.data);
    assert(b.skip(record_len(b)) =~= rest);
}

proof fn lemma_records_round_trip(records: Seq<RecordView>, n: int)
    requires
        0 <= n <= records.len(),
        forall|i: int| 0 <= i < records.len() ==> (#[trigger] records[i]).data.len() <= u16::MAX,
    ensures
        forall|rest: Seq<u8>|
            #![trigger records_of(records_bytes(records, n) + rest)]
            records_of(records_bytes(records, n) + rest) == records.take(n) + records_of(rest),
    decreases n,
{
    assert forall|rest: Seq<u8>|
        #![trigger records_of(records_bytes(records, n) + rest)]
        records_of(records_bytes(records, n) + rest) == records.take(n) + records_of(rest) by {
        if n > 0 {
            lemma_records_round_trip(records, n - 1);
            let tail = record_bytes(records[n - 1]) + rest;
            assert(records_bytes(records, n) + rest =~= records_bytes(records, n - 1) + tail);
            assert(records_of(records_bytes(records, n - 1) + tail) == records.take(n - 1)
                + records_of(tail));
            law_record_round_trip(records[n - 1], rest);
            assert(records_of(tail) == seq![records[n - 1]] + records_of(rest));
            assert(records.take(n - 1) + (seq![records[n - 1]] + records_of(rest)) =~= records.take(
                n,
            ) + records_of(rest));
        } else {
            assert(records_bytes(records, 0) + rest =~= rest);
            assert(records.take(0) + records_of(rest) =~= records_of(rest));
        }
    }
}

/// A recording gives back what was recorded: magic and records, written one after
/// the other, are read as those records.
pub proof fn law_capture_round_trip(records: Seq<RecordView>)
    requires
        forall|i: int| 0 <= i < records.len() ==> (#[trigger] records[i]).data.len() <= u16::MAX,
    ensures
        capture_of(magic() + records_bytes(records, records.len() as int)) == records,
{
    let n = records.len() as int;
    let body = records_bytes(records, n);
    let b = magic() + body;
    assert(b.take(7) =~= magic());
    assert(b.skip(7) =~= body);
    lemma_records_round_trip(records, n);
    let nothing = Seq::<u8>::empty();
    assert(body + nothing =~= body);
    assert(records_of(body + nothing) == records.take(n) + records_of(nothing));
    assert(records.take(n) + records_of(nothing) =~= records);
}

/// A recording that breaks off in the middle of a record gives back all records
/// before that one.
pub proof fn law_cut_off_record_is_left_out(records: Seq<RecordView>, last: RecordView, cut: int)
    requires
        forall|i: int| 0 <= i < records.len() ==> (#[trigger] records[i]).data.len() <= u16::MAX,
        last.data.len() <= u16::MAX,
        0 <= cut < record_bytes(last).len(),
    ensures
        capture_of(
            magic() + records_bytes(records, records.len() as int) + record_bytes(last).take(cut),
        ) == records,
{
    let n = records.len() as int;
    let body = records_bytes(records, n);
    let rest = record_bytes(last).take(cut);
    let b = magic() + body + rest;
    lemma_limit_8();
    lemma_le_round_trip(last.timestamp_us as int, 8);
    crate::protocol::lemma_le16_round_trip(last.data.len() as u16);
    assert(!has_record(rest)) by {
        if cut >= RECORD_HEADER_SIZE {
            assert(rest[9] == le16(last.data.len() as u16)[0]);
            assert(rest[10] == le16(last.data.len() as u16)[1]);
        }
    }
    assert(b.take(7) =~= magic());
    assert(b.skip(7) =~= body + rest);
    lemma_records_round_trip(records, n);
    assert(records_of(body + rest) == records.take(n) + records_of(rest));
    assert(records.take(n) + records_of(rest) =~= records);
}

/// A recording byte by byte: `SMXHID` and 1, then each record with its type in byte 0, the
/// microseconds in bytes 1 to 8 and the size of its data in bytes 9 and 10, low byte
/// first, and the data from byte 11 on.
#[verifier::spinoff_prover]
#[verifier::rlimit(30)]
pub proof fn law_record_by_number(r: RecordView, i: int)
    requires
        r.data.len() <= u16::MAX,
    ensures
        magic() == seq!['S' as u8, 'M' as u8, 'X' as u8, 'H' as u8, 'I' as u8, 'D' as u8, 1u8],
        ({
            let b = record_bytes(r);
            &&& b.len() == 11 + r.data.len()
            &&& b[0] == r.record_type
            &&& r.timestamp_us == b[1] + 256 * (b[2] + 256 * (b[3] + 256 * (b[4] + 256 * (b[5] + 256
                * (b[6] + 256 * (b[7] + 256 * b[8]))))))
            &&& b[9] + 256 * b[10] == r.data.len()
            &&& 0 <= i < r.data.len() ==> b[11 + i] == r.data[i]
        }),
{
    let v = r.timestamp_us as int;
    reveal_with_fuel(le_bytes, 9);
    let t = le_bytes(v, 8);
    lemma_limit_8();
    lemma_le_round_trip(v, 8);
    let b = record_bytes(r);
    assert(b[1] == t[0] && b[2] == t[1] && b[3] == t[2] && b[4] == t[3] && b[5] == t[4] && b[6]
        == t[5] && b[7] == t[6] && b[8] == t[7]);
    lemma_le_value_8(t);
    assert(magic() =~= seq![
        'S' as u8,
        'M' as u8,
        'X' as u8,
        'H' as u8,
        'I' as u8,
        'D' as u8,
        1u8,
    ]);
}

proof fn lemma_le_value_8(t: Seq<u8>)
    requires
        t.len() == 8,
    ensures
        le_value(t) == t[0] + 256 * (t[1] + 256 * (t[2] + 256 * (t[3] + 256 * (t[4] + 256 * (t[5]
            + 256 * (t[6] + 256 * t[7])))))),
{
    let t1 = t.skip(1);
    let t2 = t1.skip(1);
    let t3 = t2.skip(1);
    let t4 = t3.skip(1);
    let t5 = t4.skip(1);
    let t6 = t5.skip(1);
    let t7 = t6.skip(1);
    let t8 = t7.skip(1);
    assert(le_value(t8) == 0);
    assert(le_value(t7) == t[7]);
    assert(le_value(t6) == t[6] + 256 * le_value(t7));
    assert(le_value(t5) == t[5] + 256 * le_value(t6));
    assert(le_value(t4) == t[4] + 256 * le_value(t5));
    assert(le_value(t3) == t[3] + 256 * le_value(t4));
    assert(le_value(t2) == t[2] + 256 * le_value(t3));
    assert(le_value(t1) == t[1] + 256 * le_value(t2));
}

} // verus!
