//! Write-ahead-log bookkeeping: log entries with CRC32 checksums, the
//! length-prefixed framing of the log file, the writer's sequence numbers and
//! file rotation, replay statistics, and when a checkpoint is due.
//!
//! The bytes of a recovery operation come from its serialized form, which the
//! caller produces; this module checksums and frames bytes.
use crate::clock::{duration_as_secs, elapsed_nanos, instant_now, since_unix_epoch, system_now};
use std::fmt::Write;
use crate::error::{AsterError, ErrorKind};
use crate::sorting::{key_insert_pos, lemma_key_insert_pos_bounds, lemma_stable_sort_permutes, lemma_stable_sort_sorted, stable_sort};
use crate::gremlin::eval::{compare_text, text_order};
use crate::text::{chars_of, concat_vec, ends_with, string_from_chars, vec_ends_with};
use crate::types::VertexId;
use vstd::prelude::*;

verus! {

/// The CRC32 (IEEE) checksum of a byte sequence, as `crc32fast::hash`
/// computes it.
pub uninterp spec fn crc32_of(data: Seq<u8>) -> u32;

/// `crc32fast::hash`: the CRC32 checksum of `data`, a function of the bytes
/// alone.
#[verifier::external_body]
fn crc32_hash(data: &[u8]) -> (r: u32)
    ensures
        r == crc32_of(data@),
{
    crc32fast::hash(data)
}

/// An operation recorded in the log.
#[derive(Debug)]
pub enum RecoveryOperation {
    /// A committed transaction and the vertices it changed.
    TransactionCommit { transaction_id: u64, changes: Vec<VertexId>, timestamp: u64 },
    /// A rolled-back transaction.
    TransactionRollback { transaction_id: u64, timestamp: u64 },
    /// A storage checkpoint.
    StorageCheckpoint { checkpoint_id: u64, timestamp: u64 },
    /// A repair of corrupted vertices.
    CorruptionRepair { affected_vertices: Vec<VertexId>, repair_method: String, timestamp: u64 },
}

/// A log entry: its sequence number, its operation, and the CRC32 checksum
/// of the operation's serialized bytes.
#[derive(Debug)]
pub struct WALEntry {
    pub sequence_number: u64,
    pub operation: RecoveryOperation,
    pub checksum: u32,
}

impl WALEntry {
    /// An entry whose checksum is that of `serialized`, the operation's
    /// serialized bytes.
    pub fn new(sequence_number: u64, operation: RecoveryOperation, serialized: &[u8]) -> (r: WALEntry)
        ensures
            r.sequence_number == sequence_number,
            r.operation == operation,
            r.checksum == crc32_of(serialized@),
    {
        let checksum = crc32_hash(serialized);
        Self::with_checksum(sequence_number, operation, checksum)
    }

    /// An entry with the given checksum.
    pub fn with_checksum(sequence_number: u64, operation: RecoveryOperation, checksum: u32) -> (r: WALEntry)
        ensures
            r.sequence_number == sequence_number,
            r.operation == operation,
            r.checksum == checksum,
    {
        WALEntry { sequence_number, operation, checksum }
    }

    /// Whether `serialized`, the operation's serialized bytes, has the stored
    /// checksum.
    pub fn verify_checksum(&self, serialized: &[u8]) -> (r: bool)
        ensures
            r == (crc32_of(serialized@) == self.checksum),
    {
        let computed = crc32_hash(serialized);
        self.checksum_matches(computed)
    }

    /// Whether a computed checksum equals the stored one.
    pub fn checksum_matches(&self, computed: u32) -> (r: bool)
        ensures
            r == (computed == self.checksum),
    {
        computed == self.checksum
    }
}

// ---------------------------------------------------------------------------
// Framing: each entry is written as its length (4 bytes, little-endian) and
// then its bytes.

/// The 4 little-endian bytes of `n`.
pub open spec fn le_bytes(n: u32) -> Seq<u8> {
    seq![(n % 256) as u8, ((n / 256) % 256) as u8, ((n / 65536) % 256) as u8, (n / 16777216) as u8]
}

/// The number that 4 little-endian bytes encode.
pub open spec fn le_value(b: Seq<u8>) -> int {
    b[0] + 256 * b[1] + 65536 * b[2] + 16777216 * b[3]
}

/// The frame of a payload: its length, then its bytes.
pub open spec fn frame_of(payload: Seq<u8>) -> Seq<u8> {
    le_bytes(payload.len() as u32) + payload
}

/// The frames of the payloads, one after another.
pub open spec fn frames_of(payloads: Seq<Seq<u8>>) -> Seq<u8>
    decreases payloads.len(),
{
    if payloads.len() == 0 {
        Seq::empty()
    } else {
        frame_of(payloads[0]) + frames_of(payloads.drop_first())
    }
}

/// What reading the log gives: the payloads in order, stopping cleanly where
/// fewer than 4 bytes of a length remain; a frame whose bytes run past the end
/// is an I/O error.
pub open spec fn read_frames(data: Seq<u8>) -> Result<Seq<Seq<u8>>, ()>
    decreases data.len(),
{
    if data.len() < 4 {
        Ok(Seq::empty())
    } else {
        let n = le_value(data.subrange(0, 4));
        if data.len() - 4 < n {
            Err(())
        } else {
            match read_frames(data.subrange(4 + n, data.len() as int)) {
                Ok(rest) => Ok(seq![data.subrange(4, 4 + n)] + rest),
                Err(()) => Err(()),
            }
        }
    }
}

/// The 4 little-endian bytes of `n`.
pub fn u32_le_bytes(n: u32) -> (r: Vec<u8>)
    ensures
        r@ == le_bytes(n),
{
    let mut r: Vec<u8> = Vec::new();
    r.push((n % 256) as u8);
    r.push(((n / 256) % 256) as u8);
    r.push(((n / 65536) % 256) as u8);
    r.push((n / 16777216) as u8);
    assert(r@ =~= le_bytes(n));
    r
}

/// The frame of a payload: its length as 4 little-endian bytes, then its
/// bytes.
pub fn encode_frame(payload: &[u8]) -> (r: Vec<u8>)
    requires
        payload@.len() <= u32::MAX,
    ensures
        r@ == frame_of(payload@),
{
    let mut r = u32_le_bytes(payload.len() as u32);
    let mut i: usize = 0;
    while i < payload.len()
        invariant
            i <= payload@.len(),
            payload@.len() <= u32::MAX,
            r@ == le_bytes(payload@.len() as u32) + payload@.subrange(0, i as int),
        decreases payload@.len() - i,
    {
        r.push(payload[i]);
        i = i + 1;
        assert(r@ =~= le_bytes(payload@.len() as u32) + payload@.subrange(0, i as int));
    }
    assert(payload@.subrange(0, payload@.len() as int) =~= payload@);
    r
}

/// The bytes `data[start..end]`.
fn copy_range(data: &[u8], start: usize, end: usize) -> (r: Vec<u8>)
    requires
        start <= end <= data@.len(),
    ensures
        r@ == data@.subrange(start as int, end as int),
{
    let mut r: Vec<u8> = Vec::new();
    let mut i: usize = start;
    while i < end
        invariant
            start <= i <= end,
            end <= data@.len(),
            r@ == data@.subrange(start as int, i as int),
        decreases end - i,
    {
        r.push(data[i]);
        i = i + 1;
        assert(r@ =~= data@.subrange(start as int, i as int));
    }
    r
}

/// The error of a frame that runs past the end of the log.
pub open spec fn truncated_frame_error() -> (ErrorKind, Seq<char>) {
    (ErrorKind::Io, "failed to fill whole buffer"@)
}

/// A reading result with `prefix` put in front of its payloads.
pub open spec fn with_prefix(prefix: Seq<Seq<u8>>, r: Result<Seq<Seq<u8>>, ()>) -> Result<Seq<Seq<u8>>, ()> {
    match r {
        Ok(ps) => Ok(prefix + ps),
        Err(()) => Err(()),
    }
}

/// The byte sequences held by a vector of byte vectors.
pub open spec fn byte_seqs(v: Seq<Vec<u8>>) -> Seq<Seq<u8>> {
    v.map_values(|b: Vec<u8>| b@)
}

/// The payloads of the log's frames, in order; reading stops cleanly where
/// fewer than 4 bytes of a length remain, and a frame whose bytes run past the
/// end is an I/O error.
pub fn decode_frames(data: &[u8]) -> (r: Result<Vec<Vec<u8>>, AsterError>)
    ensures
        match (r, read_frames(data@)) {
            (Ok(v), Ok(ps)) => byte_seqs(v@) == ps,
            (Err(e), Err(())) => (e.spec_kind(), e.spec_text()) == truncated_frame_error(),
            _ => false,
        },
{
    let mut out: Vec<Vec<u8>> = Vec::new();
    let mut pos: usize = 0;
    let ghost d = data@;
    proof {
        assert(d.subrange(0, d.len() as int) =~= d);
        assert(byte_seqs(out@) + Seq::<Seq<u8>>::empty() =~= Seq::<Seq<u8>>::empty());
        match read_frames(d) {
            Ok(ps) => {
                assert(byte_seqs(out@) + ps =~= ps);
            },
            Err(()) => {},
        }
    }
    while data.len() - pos >= 4
        invariant
            pos <= d.len(),
            d == data@,
            read_frames(d) == with_prefix(byte_seqs(out@), read_frames(d.subrange(pos as int, d.len() as int))),
        decreases d.len() - pos,
    {
        let ghost rest = d.subrange(pos as int, d.len() as int);
        let n = (data[pos] as u64) + 256 * (data[pos + 1] as u64) + 65536 * (data[pos + 2] as u64) + 16777216 * (
        data[pos + 3] as u64);
        proof {
            assert(rest.subrange(0, 4) =~= d.subrange(pos as int, pos + 4));
            assert(le_value(rest.subrange(0, 4)) == n);
        }
        if ((data.len() - pos - 4) as u64) < n {
            proof {
                assert(read_frames(rest) is Err);
            }
            return Err(AsterError::io("failed to fill whole buffer"));
        }
        let start = pos + 4;
        let end = start + n as usize;
        let payload = copy_range(data, start, end);
        proof {
            let next = d.subrange(end as int, d.len() as int);
            assert(rest.subrange(4 + n, rest.len() as int) =~= next);
            assert(rest.subrange(4, 4 + n) =~= payload@);
            assert(read_frames(rest) == with_prefix(seq![payload@], read_frames(next)));
            assert(byte_seqs(out@.push(payload)) =~= byte_seqs(out@) + seq![payload@]);
            match read_frames(next) {
                Ok(ps) => {
                    assert(byte_seqs(out@) + (seq![payload@] + ps) =~= (byte_seqs(out@) + seq![payload@]) + ps);
                },
                Err(()) => {},
            }
        }
        out.push(payload);
        pos = end;
    }
    proof {
        let rest = d.subrange(pos as int, d.len() as int);
        assert(read_frames(rest) == Ok::<Seq<Seq<u8>>, ()>(Seq::empty()));
        assert(byte_seqs(out@) + Seq::<Seq<u8>>::empty() =~= byte_seqs(out@));
    }
    Ok(out)
}

/// Four little-endian bytes give back the number they were made from.
pub proof fn lemma_le_roundtrip(n: u32)
    ensures
        le_bytes(n).len() == 4,
        le_value(le_bytes(n)) == n,
{
    assert(n % 256 + 256 * ((n / 256) % 256) + 65536 * ((n / 65536) % 256) + 16777216 * (n / 16777216) == n)
        by (bit_vector);
    assert(n / 16777216 < 256) by (bit_vector);
}

/// Reading the frames of payloads, written one after another as
/// `encode_frame` makes them, gives back the payloads in order, where each
/// payload's length fits in 4 bytes.
pub proof fn lemma_read_frames_of(payloads: Seq<Seq<u8>>)
    requires
        forall|i: int| 0 <= i < payloads.len() ==> (#[trigger] payloads[i]).len() <= u32::MAX,
    ensures
        read_frames(frames_of(payloads)) == Ok::<Seq<Seq<u8>>, ()>(payloads),
    decreases payloads.len(),
{
    if payloads.len() == 0 {
        assert(frames_of(payloads).len() == 0);
        assert(payloads =~= Seq::<Seq<u8>>::empty());
    } else {
        let p = payloads[0];
        let rest = payloads.drop_first();
        assert forall|i: int| 0 <= i < rest.len() implies (#[trigger] rest[i]).len() <= u32::MAX by {
            assert(rest[i] == payloads[i + 1]);
        }
        lemma_read_frames_of(rest);
        lemma_le_roundtrip(p.len() as u32);
        let data = frames_of(payloads);
        let n = p.len() as int;
        assert(data == le_bytes(n as u32) + p + frames_of(rest));
        assert(data.subrange(0, 4) =~= le_bytes(n as u32));
        assert(data.subrange(4, 4 + n) =~= p);
        assert(data.subrange(4 + n, data.len() as int) =~= frames_of(rest));
        assert(seq![p] + rest =~= payloads);
    }
}

// ---------------------------------------------------------------------------
// Reading the log back.

/// An entry's sequence number, the key that the log is replayed by.
pub open spec fn by_sequence() -> spec_fn(WALEntry) -> u64 {
    |e: WALEntry| e.sequence_number
}

/// The entries sorted by sequence number, entries with equal numbers kept in
/// their order (a stable sort).
pub open spec fn sort_by_sequence(s: Seq<WALEntry>) -> Seq<WALEntry> {
    stable_sort(s, by_sequence())
}

/// The entries whose computed checksum (at the same index) equals their
/// stored one, in order.
pub open spec fn valid_entries(es: Seq<WALEntry>, computed: Seq<u32>) -> Seq<WALEntry>
    decreases es.len(),
{
    if es.len() == 0 {
        Seq::empty()
    } else {
        let rest = valid_entries(es.drop_last(), computed.take(es.len() - 1));
        if computed[es.len() - 1] == es.last().checksum {
            rest.push(es.last())
        } else {
            rest
        }
    }
}

/// The place for sequence number `k` in `v`: the first entry whose number is
/// greater than `k`, or the end.
fn find_insert_pos(v: &Vec<WALEntry>, k: u64) -> (r: usize)
    ensures
        r == key_insert_pos(v@, by_sequence(), k),
{
    let mut i: usize = 0;
    assert(v@.skip(0) =~= v@);
    while i < v.len()
        invariant
            i <= v@.len(),
            key_insert_pos(v@, by_sequence(), k) == i + key_insert_pos(v@.skip(i as int), by_sequence(), k),
            forall|j: int| 0 <= j < i ==> v@[j].sequence_number <= k,
        decreases v@.len() - i,
    {
        proof {
            assert(v@.skip(i as int)[0] == v@[i as int]);
            assert(v@.skip(i as int).drop_first() =~= v@.skip(i + 1));
        }
        if v[i].sequence_number > k {
            return i;
        }
        i = i + 1;
    }
    proof {
        assert(v@.skip(i as int) =~= Seq::<WALEntry>::empty());
    }
    i
}

/// The checksums of serialized operations.
pub open spec fn checksums_of(serialized: Seq<Vec<u8>>) -> Seq<u32> {
    serialized.map_values(|b: Vec<u8>| crc32_of(b@))
}

/// The log entries to replay: those whose operation, serialized as
/// `serialized[i]` for `entries[i]`, has the stored checksum, sorted by
/// sequence number, entries with equal numbers in the order read.
pub fn valid_entries_by_sequence(entries: Vec<WALEntry>, serialized: &Vec<Vec<u8>>) -> (r: Vec<WALEntry>)
    requires
        entries@.len() == serialized@.len(),
    ensures
        r@ == sort_by_sequence(valid_entries(entries@, checksums_of(serialized@))),
{
    let ghost all = entries@;
    let ghost computed = checksums_of(serialized@);
    let mut rest = entries;
    let mut out: Vec<WALEntry> = Vec::new();
    let mut i: usize = 0;
    let n = serialized.len();
    proof {
        assert(all.take(0) =~= Seq::<WALEntry>::empty());
        assert(all.skip(0) =~= all);
    }
    while i < n
        invariant
            n == serialized@.len(),
            computed == checksums_of(serialized@),
            all.len() == n,
            i <= n,
            rest@ == all.skip(i as int),
            out@ == sort_by_sequence(valid_entries(all.take(i as int), computed.take(i as int))),
        decreases n - i,
    {
        let e = rest.remove(0);
        let c = crc32_hash(serialized[i].as_slice());
        proof {
            assert(e == all[i as int]);
            assert(rest@ =~= all.skip(i + 1));
            let t = all.take(i + 1);
            assert(t.drop_last() =~= all.take(i as int));
            assert(t.last() == e);
            assert(computed.take(i + 1).take(i as int) =~= computed.take(i as int));
            assert(computed.take(i + 1)[i as int] == computed[i as int]);
            assert(computed[i as int] == c);
        }
        if c == e.checksum {
            let p = find_insert_pos(&out, e.sequence_number);
            proof {
                lemma_key_insert_pos_bounds(out@, by_sequence(), e.sequence_number);
                let kept = valid_entries(all.take(i as int), computed.take(i as int));
                assert(kept.push(e).drop_last() =~= kept);
            }
            out.insert(p, e);
        }
        i = i + 1;
    }
    proof {
        assert(all.take(n as int) =~= all);
        assert(computed.take(n as int) =~= computed);
    }
    out
}

/// A replay list is in order: sequence numbers never decrease.
pub proof fn lemma_sorted_by_sequence(s: Seq<WALEntry>)
    ensures
        sort_by_sequence(s).len() == s.len(),
        forall|i: int, j: int|
            0 <= i < j < s.len() ==> #[trigger] sort_by_sequence(s)[i].sequence_number
                <= #[trigger] sort_by_sequence(s)[j].sequence_number,
{
    lemma_stable_sort_sorted(s, by_sequence());
    let r = sort_by_sequence(s);
    assert forall|i: int, j: int| 0 <= i < j < s.len() implies #[trigger] r[i].sequence_number <= #[trigger] r[j].sequence_number by {
        assert(by_sequence()(r[i]) <= by_sequence()(r[j]));
    }
}

/// Sorting by sequence number only reorders: the sorted list holds the same
/// entries, each as often.
pub proof fn lemma_sort_by_sequence_permutes(s: Seq<WALEntry>)
    ensures
        sort_by_sequence(s).to_multiset() == s.to_multiset(),
{
    lemma_stable_sort_permutes(s, by_sequence());
}

/// Entries whose checksums all hold are all kept, in the order read.
pub proof fn lemma_intact_entries_kept(es: Seq<WALEntry>, computed: Seq<u32>)
    requires
        computed.len() == es.len(),
        forall|i: int| 0 <= i < es.len() ==> computed[i] == (#[trigger] es[i]).checksum,
    ensures
        valid_entries(es, computed) == es,
    decreases es.len(),
{
    if es.len() > 0 {
        let t = computed.take(es.len() - 1);
        assert forall|i: int| 0 <= i < es.drop_last().len() implies t[i] == (#[trigger] es.drop_last()[i]).checksum by {
            assert(es.drop_last()[i] == es[i]);
        }
        lemma_intact_entries_kept(es.drop_last(), t);
        assert(computed[es.len() - 1] == es[es.len() - 1].checksum);
        assert(es.drop_last().push(es.last()) =~= es);
    }
}

// ---------------------------------------------------------------------------
// The writer.

/// The log writer's state: the last sequence number handed out, the size of
/// the current file, whether a file is open, and the size at which a file is
/// rotated.
pub struct WalWriter {
    pub sequence: u64,
    pub file_size: u64,
    pub has_file: bool,
    pub max_file_size: u64,
}

/// What the caller does to write one frame: close the current file first
/// (`rotate`), open a new file (`open_new_file`), then append the frame.
#[derive(Debug, Clone, Copy, PartialEq, Eq, Structural)]
pub struct WritePlan {
    pub rotate: bool,
    pub open_new_file: bool,
}

impl WalWriter {
    /// A writer with no file open and no entry written.
    pub fn new(max_file_size: u64) -> (r: WalWriter)
        ensures
            r.sequence == 0,
            r.file_size == 0,
            !r.has_file,
            r.max_file_size == max_file_size,
    {
        WalWriter { sequence: 0, file_size: 0, has_file: false, max_file_size }
    }

    /// The next sequence number (one past the last, wrapping around).
    pub fn next_sequence(&mut self) -> (r: u64)
        ensures
            r == old(self).sequence.wrapping_add(1),
            final(self).sequence == r,
            final(self).file_size == old(self).file_size,
            final(self).has_file == old(self).has_file,
            final(self).max_file_size == old(self).max_file_size,
    {
        self.sequence = self.sequence.wrapping_add(1);
        self.sequence
    }

    /// Plans the write of a serialized entry of `len` bytes: where the file
    /// would grow past the maximum it is rotated (closed, its size reset);
    /// a new file is opened where none is; then the file grows by the frame's
    /// 4-byte length and the bytes.
    pub fn plan_write(&mut self, len: u64) -> (r: WritePlan)
        ensures
            r.rotate == (old(self).file_size as int + len as int > old(self).max_file_size as int),
            r.open_new_file == (r.rotate || !old(self).has_file),
            final(self).has_file,
            final(self).file_size == (if r.rotate { 0u64 } else { old(self).file_size }).wrapping_add(len.wrapping_add(4)),
            final(self).sequence == old(self).sequence,
            final(self).max_file_size == old(self).max_file_size,
    {
        let rotate = (self.file_size as u128) + (len as u128) > (self.max_file_size as u128);
        if rotate {
            self.has_file = false;
            self.file_size = 0;
        }
        let open_new_file = !self.has_file;
        self.has_file = true;
        self.file_size = self.file_size.wrapping_add(len.wrapping_add(4));
        WritePlan { rotate, open_new_file }
    }
}

/// The text of the UTC time `secs` seconds after 1970 written with the
/// strftime-style `pattern`, as chrono writes it; `None` where chrono has no
/// such time or cannot write the pattern.
pub uninterp spec fn utc_text(secs: i64, pattern: Seq<char>) -> Option<Seq<char>>;

/// `chrono::DateTime::<Utc>::from_timestamp(secs, 0)` written through
/// `DateTime::format(pattern)`: the result is a function of `secs` and the
/// pattern alone (UTC, no locale), named [`utc_text`]. Writing into a
/// `String` reports an unwritable pattern as an error, so nothing panics.
#[verifier::external_body]
fn format_utc(secs: i64, pattern: &str) -> (r: Option<String>)
    ensures
        match r {
            Some(t) => utc_text(secs, pattern@) == Some(t@),
            None => utc_text(secs, pattern@) is None,
        },
{
    let dt = chrono::DateTime::<chrono::Utc>::from_timestamp(secs, 0)?;
    let mut out = String::new();
    match write!(out, "{}", dt.format(pattern)) {
        Ok(()) => Some(out),
        Err(_) => None,
    }
}

/// The pattern of the time in a log file's name: year, month, day, `_`,
/// hour, minute, second.
pub open spec fn wal_time_pattern() -> Seq<char> {
    "%Y%m%d_%H%M%S"@
}

/// The name of a log file created `secs` seconds after 1970 (UTC), where
/// chrono can write that time.
pub open spec fn wal_name_at(secs: u64) -> Option<Seq<char>> {
    if secs > i64::MAX {
        None
    } else {
        match utc_text(secs as i64, wal_time_pattern()) {
            Some(t) => Some("wal_"@ + t + ".log"@),
            None => None,
        }
    }
}

/// The name of a log file created at the given time: `wal_<time>.log`.
pub fn wal_file_name(timestamp: &str) -> (r: String)
    ensures
        r@ == "wal_"@ + timestamp@ + ".log"@,
{
    let a = concat_vec(&chars_of("wal_"), &chars_of(timestamp));
    let b = concat_vec(&a, &chars_of(".log"));
    string_from_chars(&b)
}

/// The name of a log file created `secs` seconds after 1970 (UTC):
/// `wal_<time>.log`; `None` where the time cannot be written.
pub fn wal_file_name_at(secs: u64) -> (r: Option<String>)
    ensures
        match r {
            Some(n) => wal_name_at(secs) == Some(n@),
            None => wal_name_at(secs) is None,
        },
{
    if secs > i64::MAX as u64 {
        return None;
    }
    match format_utc(secs as i64, "%Y%m%d_%H%M%S") {
        Some(t) => Some(wal_file_name(t.as_str())),
        None => None,
    }
}

/// The name of a new log file, from the system clock; `None` where the clock
/// reads a time before 1970 or one that cannot be written.
pub fn new_wal_file_name() -> (r: Option<String>)
    ensures
        r matches Some(n) ==> exists|secs: u64| wal_name_at(secs) == Some(n@),
{
    let now = system_now();
    match since_unix_epoch(&now) {
        Some(d) => wal_file_name_at(duration_as_secs(&d)),
        None => None,
    }
}

// ---------------------------------------------------------------------------
// The log files of a directory.

/// Whether a file name has the extension `log`: the text after its last dot
/// is `log`, and that dot is not the name's first character.
pub open spec fn is_log_name(name: Seq<char>) -> bool {
    name.len() > 4 && ends_with(name, ".log"@)
}

/// The texts of names.
pub open spec fn names_view(v: Seq<String>) -> Seq<Seq<char>> {
    v.map_values(|s: String| s@)
}

/// The log file names among `names`, in order.
pub open spec fn log_names(names: Seq<Seq<char>>) -> Seq<Seq<char>>
    decreases names.len(),
{
    if names.len() == 0 {
        Seq::empty()
    } else {
        let rest = log_names(names.drop_last());
        if is_log_name(names.last()) {
            rest.push(names.last())
        } else {
            rest
        }
    }
}

/// Where name `x` goes among names in order: after every name that is not
/// greater.
pub open spec fn name_insert_pos(s: Seq<Seq<char>>, x: Seq<char>) -> int
    decreases s.len(),
{
    if s.len() == 0 {
        0
    } else if text_order(s[0], x) > 0 {
        0
    } else {
        1 + name_insert_pos(s.drop_first(), x)
    }
}

/// The names in order by code point, equal names kept in their order.
pub open spec fn sort_names(s: Seq<Seq<char>>) -> Seq<Seq<char>>
    decreases s.len(),
{
    if s.len() == 0 {
        Seq::empty()
    } else {
        let sorted = sort_names(s.drop_last());
        sorted.insert(name_insert_pos(sorted, s.last()), s.last())
    }
}

/// The names to delete so that the `keep` greatest remain, greatest first.
pub open spec fn names_to_remove(sorted: Seq<Seq<char>>, keep: nat) -> Seq<Seq<char>> {
    if keep >= sorted.len() {
        Seq::empty()
    } else {
        sorted.take(sorted.len() - keep).reverse()
    }
}

/// Swapping two texts flips their order.
proof fn lemma_text_order_flip(a: Seq<char>, b: Seq<char>)
    ensures
        text_order(a, b) == -text_order(b, a),
    decreases a.len(),
{
    if a.len() > 0 && b.len() > 0 && (a[0] as u32) == (b[0] as u32) {
        lemma_text_order_flip(a.drop_first(), b.drop_first());
    }
}

/// The order of texts is transitive.
proof fn lemma_text_order_trans(a: Seq<char>, b: Seq<char>, c: Seq<char>)
    requires
        text_order(a, b) <= 0,
        text_order(b, c) <= 0,
    ensures
        text_order(a, c) <= 0,
    decreases a.len(),
{
    if a.len() > 0 && b.len() > 0 && c.len() > 0 && (a[0] as u32) == (b[0] as u32) && (b[0] as u32) == (c[0] as u32) {
        lemma_text_order_trans(a.drop_first(), b.drop_first(), c.drop_first());
    }
}

/// Names in order: none is greater than a later one.
pub open spec fn names_sorted(s: Seq<Seq<char>>) -> bool {
    forall|i: int, j: int| 0 <= i < j < s.len() ==> text_order(#[trigger] s[i], #[trigger] s[j]) <= 0
}

/// Every name before the insertion place is not greater than `x`, and,
/// where the names are in order, every one from it on is greater.
proof fn lemma_name_insert_pos_split(s: Seq<Seq<char>>, x: Seq<char>)
    requires
        names_sorted(s),
    ensures
        forall|i: int| 0 <= i < name_insert_pos(s, x) ==> text_order(#[trigger] s[i], x) <= 0,
        forall|i: int| name_insert_pos(s, x) <= i < s.len() ==> text_order(#[trigger] s[i], x) > 0,
    decreases s.len(),
{
    lemma_name_insert_pos_bounds(s, x);
    if s.len() > 0 {
        let t = s.drop_first();
        assert(names_sorted(t)) by {
            assert forall|i: int, j: int| 0 <= i < j < t.len() implies text_order(#[trigger] t[i], #[trigger] t[j]) <= 0 by {
                assert(t[i] == s[i + 1] && t[j] == s[j + 1]);
            }
        }
        lemma_name_insert_pos_split(t, x);
        lemma_name_insert_pos_bounds(t, x);
        if text_order(s[0], x) > 0 {
            assert forall|i: int| 0 <= i < s.len() implies text_order(#[trigger] s[i], x) > 0 by {
                if i > 0 && text_order(s[i], x) <= 0 {
                    assert(text_order(s[0], s[i]) <= 0);
                    lemma_text_order_trans(s[0], s[i], x);
                }
            }
        } else {
            assert forall|i: int| 0 <= i < name_insert_pos(s, x) implies text_order(#[trigger] s[i], x) <= 0 by {
                if i > 0 {
                    assert(s[i] == t[i - 1]);
                }
            }
            assert forall|i: int| name_insert_pos(s, x) <= i < s.len() implies text_order(#[trigger] s[i], x) > 0 by {
                assert(s[i] == t[i - 1]);
            }
        }
    }
}

/// Log files are read in name order: the sorted names are in order and as
/// many as the names sorted.
pub proof fn lemma_sort_names_sorted(s: Seq<Seq<char>>)
    ensures
        sort_names(s).len() == s.len(),
        names_sorted(sort_names(s)),
    decreases s.len(),
{
    if s.len() > 0 {
        let prev = sort_names(s.drop_last());
        lemma_sort_names_sorted(s.drop_last());
        let x = s.last();
        lemma_name_insert_pos_bounds(prev, x);
        lemma_name_insert_pos_split(prev, x);
        let p = name_insert_pos(prev, x);
        let r = prev.insert(p, x);
        assert(r == sort_names(s));
        assert forall|i: int, j: int| 0 <= i < j < r.len() implies text_order(#[trigger] r[i], #[trigger] r[j]) <= 0 by {
            if j < p {
                assert(r[i] == prev[i] && r[j] == prev[j]);
            } else if i < p && j == p {
                assert(r[i] == prev[i]);
            } else if i < p {
                assert(r[i] == prev[i] && r[j] == prev[j - 1]);
            } else if i == p {
                assert(r[j] == prev[j - 1]);
                lemma_text_order_flip(prev[j - 1], x);
            } else {
                assert(r[i] == prev[i - 1] && r[j] == prev[j - 1]);
            }
        }
    }
}

/// Sorting names only reorders them.
pub proof fn lemma_sort_names_permutes(s: Seq<Seq<char>>)
    ensures
        sort_names(s).to_multiset() == s.to_multiset(),
    decreases s.len(),
{
    broadcast use vstd::seq_lib::group_seq_properties;
    broadcast use vstd::multiset::group_multiset_axioms;

    if s.len() > 0 {
        let prev = sort_names(s.drop_last());
        lemma_sort_names_permutes(s.drop_last());
        let x = s.last();
        lemma_name_insert_pos_bounds(prev, x);
        let p = name_insert_pos(prev, x);
        let r = prev.insert(p, x);
        assert(r.remove(p) =~= prev);
        assert(r[p] == x);
        assert(r.remove(p).to_multiset() =~= r.to_multiset().remove(x));
        assert(s.drop_last().push(x) =~= s);
        assert(s.to_multiset() =~= s.drop_last().to_multiset().insert(x));
        assert(r.to_multiset().count(x) > 0) by {
            assert(r.contains(x));
        }
        assert(r.to_multiset() =~= r.to_multiset().remove(x).insert(x));
    }
}

/// Whether `name` has the extension `log`.
fn is_log_file(name: &String) -> (r: bool)
    ensures
        r == is_log_name(name@),
{
    let cs = chars_of(name.as_str());
    cs.len() > 4 && vec_ends_with(&cs, &chars_of(".log"))
}

proof fn lemma_name_insert_pos_bounds(s: Seq<Seq<char>>, x: Seq<char>)
    ensures
        0 <= name_insert_pos(s, x) <= s.len(),
    decreases s.len(),
{
    if s.len() > 0 {
        lemma_name_insert_pos_bounds(s.drop_first(), x);
    }
}

/// The place for name `x` in `v`: the first name greater than `x`, or the
/// end.
fn find_name_pos(v: &Vec<String>, x: &String) -> (r: usize)
    ensures
        r == name_insert_pos(names_view(v@), x@),
{
    let ghost nv = names_view(v@);
    let mut i: usize = 0;
    assert(nv.skip(0) =~= nv);
    while i < v.len()
        invariant
            i <= v@.len(),
            nv == names_view(v@),
            name_insert_pos(nv, x@) == i + name_insert_pos(nv.skip(i as int), x@),
        decreases v@.len() - i,
    {
        proof {
            assert(nv.skip(i as int)[0] == v@[i as int]@);
            assert(nv.skip(i as int).drop_first() =~= nv.skip(i + 1));
        }
        if compare_text(v[i].as_str(), x.as_str()) > 0 {
            return i;
        }
        i = i + 1;
    }
    proof {
        assert(nv.skip(i as int) =~= Seq::<Seq<char>>::empty());
    }
    i
}

/// The log files among the file names of a directory, in name order: the
/// order in which they were created, as their names begin with the time.
pub fn log_files_in_order(names: &Vec<String>) -> (r: Vec<String>)
    ensures
        names_view(r@) == sort_names(log_names(names_view(names@))),
{
    let ghost all = names_view(names@);
    let mut out: Vec<String> = Vec::new();
    let mut i: usize = 0;
    proof {
        assert(all.take(0) =~= Seq::<Seq<char>>::empty());
        assert(names_view(out@) =~= Seq::<Seq<char>>::empty());
    }
    while i < names.len()
        invariant
            i <= names@.len(),
            all == names_view(names@),
            names_view(out@) == sort_names(log_names(all.take(i as int))),
        decreases names@.len() - i,
    {
        let name = &names[i];
        proof {
            let t = all.take(i + 1);
            assert(t.drop_last() =~= all.take(i as int));
            assert(t.last() == name@);
        }
        if is_log_file(name) {
            let p = find_name_pos(&out, name);
            let ghost before = names_view(out@);
            proof {
                lemma_name_insert_pos_bounds(before, name@);
                let kept = log_names(all.take(i as int));
                assert(kept.push(name@).drop_last() =~= kept);
            }
            out.insert(p, name.clone());
            proof {
                assert(names_view(out@) =~= before.insert(p as int, name@));
            }
        }
        i = i + 1;
    }
    proof {
        assert(all.take(all.len() as int) =~= all);
    }
    out
}

/// The log files to delete so that the `keep` newest remain: all but the
/// `keep` greatest names, greatest first.
pub fn log_files_to_remove(names: &Vec<String>, keep: usize) -> (r: Vec<String>)
    ensures
        names_view(r@) == names_to_remove(sort_names(log_names(names_view(names@))), keep as nat),
{
    let sorted = log_files_in_order(names);
    let ghost sv = names_view(sorted@);
    let mut r: Vec<String> = Vec::new();
    if keep >= sorted.len() {
        proof {
            assert(names_view(r@) =~= Seq::<Seq<char>>::empty());
        }
        return r;
    }
    let n = sorted.len() - keep;
    let mut i: usize = n;
    proof {
        assert(names_view(r@) =~= Seq::<Seq<char>>::empty());
    }
    while i > 0
        invariant
            i <= n,
            n == sv.len() - keep,
            n <= sorted@.len(),
            sv == names_view(sorted@),
            names_view(r@) =~= sv.take(n as int).reverse().take((n - i) as int),
        decreases i,
    {
        i = i - 1;
        let ghost before = names_view(r@);
        r.push(sorted[i].clone());
        proof {
            assert(names_view(r@) =~= before.push(sorted@[i as int]@));
            assert(sv.take(n as int).reverse()[(n - 1 - i) as int] == sv[i as int]);
            assert(sv.take(n as int).reverse().take((n - i) as int) =~= sv.take(n as int).reverse().take((n - 1 - i) as int).push(
                sv[i as int],
            ));
        }
    }
    proof {
        assert(sv.take(n as int).reverse().take(n as int) =~= sv.take(n as int).reverse());
    }
    r
}

// ---------------------------------------------------------------------------
// Configuration and statistics.

/// Recovery settings.
#[derive(Debug, Clone)]
pub struct RecoveryConfig {
    pub wal_directory: String,
    pub checkpoint_interval_seconds: u64,
    pub max_wal_file_size: u64,
    pub recovery_timeout_seconds: u64,
    pub enable_auto_repair: bool,
    pub corruption_detection_interval_seconds: u64,
    pub max_recovery_attempts: usize,
}

impl RecoveryConfig {
    /// The defaults: logs in `./wal`, a checkpoint every 5 minutes, 64 MiB
    /// log files, a 5-minute recovery timeout, automatic repair, corruption
    /// checks every hour, and 3 recovery attempts.
    pub fn default_config() -> (r: RecoveryConfig)
        ensures
            r.wal_directory@ == "./wal"@,
            r.checkpoint_interval_seconds == 300,
            r.max_wal_file_size == 64 * 1024 * 1024,
            r.recovery_timeout_seconds == 300,
            r.enable_auto_repair,
            r.corruption_detection_interval_seconds == 3600,
            r.max_recovery_attempts == 3,
    {
        RecoveryConfig {
            wal_directory: string_from_chars(&chars_of("./wal")),
            checkpoint_interval_seconds: 300,
            max_wal_file_size: 64 * 1024 * 1024,
            recovery_timeout_seconds: 300,
            enable_auto_repair: true,
            corruption_detection_interval_seconds: 3600,
            max_recovery_attempts: 3,
        }
    }
}

/// Counters of recovery work.
#[derive(Debug, Clone, Copy, PartialEq, Eq, Structural)]
pub struct RecoveryStats {
    pub transactions_recovered: u64,
    pub transactions_rolled_back: u64,
    pub corruptions_detected: u64,
    pub corruptions_repaired: u64,
    pub checkpoints_created: u64,
    pub wal_entries_written: u64,
    pub wal_entries_replayed: u64,
    pub recovery_operations: u64,
    pub last_recovery_time: Option<u64>,
    pub total_recovery_time_ms: u64,
}

/// The kind of a logged operation.
#[derive(Debug, Clone, Copy, PartialEq, Eq, Structural)]
pub enum OperationKind {
    Commit,
    Rollback,
    Checkpoint,
    Repair,
}

impl RecoveryOperation {
    /// The kind of this operation.
    pub fn kind(&self) -> (r: OperationKind)
        ensures
            r == op_kind(*self),
    {
        match self {
            RecoveryOperation::TransactionCommit { .. } => OperationKind::Commit,
            RecoveryOperation::TransactionRollback { .. } => OperationKind::Rollback,
            RecoveryOperation::StorageCheckpoint { .. } => OperationKind::Checkpoint,
            RecoveryOperation::CorruptionRepair { .. } => OperationKind::Repair,
        }
    }
}

/// The kind of an operation.
pub open spec fn op_kind(op: RecoveryOperation) -> OperationKind {
    match op {
        RecoveryOperation::TransactionCommit { .. } => OperationKind::Commit,
        RecoveryOperation::TransactionRollback { .. } => OperationKind::Rollback,
        RecoveryOperation::StorageCheckpoint { .. } => OperationKind::Checkpoint,
        RecoveryOperation::CorruptionRepair { .. } => OperationKind::Repair,
    }
}

/// How many of the kinds are `k`.
pub open spec fn count_kind(ks: Seq<OperationKind>, k: OperationKind) -> nat
    decreases ks.len(),
{
    if ks.len() == 0 {
        0
    } else {
        count_kind(ks.drop_last(), k) + if ks.last() == k { 1nat } else { 0nat }
    }
}

/// `n` added to a counter, wrapping around.
pub open spec fn add_count(c: u64, n: nat) -> u64 {
    ((c as int + n) % 0x1_0000_0000_0000_0000) as u64
}

/// The statistics after replaying operations of the given kinds: each commit
/// counts as a recovered transaction, each rollback as a rolled-back one, each
/// checkpoint as a checkpoint, each repair as a repaired corruption.
pub open spec fn after_replay(s: RecoveryStats, ks: Seq<OperationKind>) -> RecoveryStats {
    RecoveryStats {
        transactions_recovered: add_count(s.transactions_recovered, count_kind(ks, OperationKind::Commit)),
        transactions_rolled_back: add_count(s.transactions_rolled_back, count_kind(ks, OperationKind::Rollback)),
        checkpoints_created: add_count(s.checkpoints_created, count_kind(ks, OperationKind::Checkpoint)),
        corruptions_repaired: add_count(s.corruptions_repaired, count_kind(ks, OperationKind::Repair)),
        ..s
    }
}

/// The kinds of the entries' operations.
pub open spec fn entry_kinds(es: Seq<WALEntry>) -> Seq<OperationKind> {
    es.map_values(|e: WALEntry| op_kind(e.operation))
}

/// One more than `c`, wrapping around.
fn incr(c: u64) -> (r: u64)
    ensures
        r == add_count(c, 1),
{
    if c == u64::MAX {
        0
    } else {
        c + 1
    }
}

/// Adds `n` to `c`, wrapping around.
fn add_wrapping(c: u64, n: u64) -> (r: u64)
    ensures
        r == add_count(c, n as nat),
{
    c.wrapping_add(n)
}

impl RecoveryStats {
    /// All counters zero and no recovery time.
    pub fn new() -> (r: RecoveryStats)
        ensures
            r == RecoveryStats::zero(),
    {
        RecoveryStats {
            transactions_recovered: 0,
            transactions_rolled_back: 0,
            corruptions_detected: 0,
            corruptions_repaired: 0,
            checkpoints_created: 0,
            wal_entries_written: 0,
            wal_entries_replayed: 0,
            recovery_operations: 0,
            last_recovery_time: None,
            total_recovery_time_ms: 0,
        }
    }

    pub open spec fn zero() -> RecoveryStats {
        RecoveryStats {
            transactions_recovered: 0,
            transactions_rolled_back: 0,
            corruptions_detected: 0,
            corruptions_repaired: 0,
            checkpoints_created: 0,
            wal_entries_written: 0,
            wal_entries_replayed: 0,
            recovery_operations: 0,
            last_recovery_time: None,
            total_recovery_time_ms: 0,
        }
    }

    /// Counts a written log entry.
    pub fn record_wal_write(&mut self)
        ensures
            *final(self) == (RecoveryStats { wal_entries_written: add_count(old(self).wal_entries_written, 1), ..*old(self) }),
    {
        self.wal_entries_written = incr(self.wal_entries_written);
    }

    /// Counts a checkpoint and its log entry.
    pub fn record_checkpoint(&mut self)
        ensures
            *final(self) == (RecoveryStats {
                checkpoints_created: add_count(old(self).checkpoints_created, 1),
                wal_entries_written: add_count(old(self).wal_entries_written, 1),
                ..*old(self)
            }),
    {
        self.checkpoints_created = incr(self.checkpoints_created);
        self.wal_entries_written = incr(self.wal_entries_written);
    }

    /// Counts the detected and the repaired corruptions of one check.
    pub fn record_corruption_check(&mut self, detected: usize, repaired: usize)
        ensures
            *final(self) == (RecoveryStats {
                corruptions_detected: add_count(old(self).corruptions_detected, detected as nat),
                corruptions_repaired: add_count(old(self).corruptions_repaired, repaired as nat),
                ..*old(self)
            }),
    {
        self.corruptions_detected = add_wrapping(self.corruptions_detected, detected as u64);
        self.corruptions_repaired = add_wrapping(self.corruptions_repaired, repaired as u64);
    }

    /// Counts the start of a recovery at `now_secs`.
    pub fn record_recovery_start(&mut self, now_secs: u64)
        ensures
            *final(self) == (RecoveryStats {
                recovery_operations: add_count(old(self).recovery_operations, 1),
                last_recovery_time: Some(now_secs),
                ..*old(self)
            }),
    {
        self.recovery_operations = incr(self.recovery_operations);
        self.last_recovery_time = Some(now_secs);
    }

    /// Adds the time a recovery took.
    pub fn record_recovery_time(&mut self, millis: u64)
        ensures
            *final(self) == (RecoveryStats {
                total_recovery_time_ms: add_count(old(self).total_recovery_time_ms, millis as nat),
                ..*old(self)
            }),
    {
        self.total_recovery_time_ms = add_wrapping(self.total_recovery_time_ms, millis);
    }

    /// Counts the replay of one operation.
    pub fn record_replayed(&mut self, kind: OperationKind)
        ensures
            *final(self) == after_replay(*old(self), seq![kind]),
    {
        proof {
            let ks = seq![kind];
            assert(ks.drop_last() =~= Seq::<OperationKind>::empty());
            reveal_with_fuel(count_kind, 2);
            assert(count_kind(ks, OperationKind::Commit) == if kind == OperationKind::Commit { 1nat } else { 0nat });
            assert(count_kind(ks, OperationKind::Rollback) == if kind == OperationKind::Rollback { 1nat } else { 0nat });
            assert(count_kind(ks, OperationKind::Checkpoint) == if kind == OperationKind::Checkpoint { 1nat } else { 0nat });
            assert(count_kind(ks, OperationKind::Repair) == if kind == OperationKind::Repair { 1nat } else { 0nat });
        }
        match kind {
            OperationKind::Commit => {
                self.transactions_recovered = incr(self.transactions_recovered);
            },
            OperationKind::Rollback => {
                self.transactions_rolled_back = incr(self.transactions_rolled_back);
            },
            OperationKind::Checkpoint => {
                self.checkpoints_created = incr(self.checkpoints_created);
            },
            OperationKind::Repair => {
                self.corruptions_repaired = incr(self.corruptions_repaired);
            },
        }
        proof {
            lemma_add_count_zero(old(self).transactions_recovered);
            lemma_add_count_zero(old(self).transactions_rolled_back);
            lemma_add_count_zero(old(self).checkpoints_created);
            lemma_add_count_zero(old(self).corruptions_repaired);
        }
    }
}

/// Adding nothing leaves a counter as it is.
pub proof fn lemma_add_count_zero(c: u64)
    ensures
        add_count(c, 0) == c,
{
}

/// Adding `a` and then `b` adds `a + b`.
pub proof fn lemma_add_count_twice(c: u64, a: nat, b: nat)
    ensures
        add_count(add_count(c, a), b) == add_count(c, a + b),
{
    vstd::arithmetic::div_mod::lemma_add_mod_noop_right(b as int, c as int + a, 0x1_0000_0000_0000_0000);
    assert(b as int + (c as int + a) == c as int + (a + b));
}

/// Replaying one more operation counts it on top of the others.
pub proof fn lemma_after_replay_push(s: RecoveryStats, ks: Seq<OperationKind>, k: OperationKind)
    ensures
        after_replay(after_replay(s, ks), seq![k]) == after_replay(s, ks.push(k)),
{
    assert(ks.push(k).drop_last() =~= ks);
    assert(seq![k].drop_last() =~= Seq::<OperationKind>::empty());
    reveal_with_fuel(count_kind, 2);
    lemma_add_count_twice(s.transactions_recovered, count_kind(ks, OperationKind::Commit), count_kind(seq![k], OperationKind::Commit));
    lemma_add_count_twice(s.transactions_rolled_back, count_kind(ks, OperationKind::Rollback), count_kind(seq![k], OperationKind::Rollback));
    lemma_add_count_twice(s.checkpoints_created, count_kind(ks, OperationKind::Checkpoint), count_kind(seq![k], OperationKind::Checkpoint));
    lemma_add_count_twice(s.corruptions_repaired, count_kind(ks, OperationKind::Repair), count_kind(seq![k], OperationKind::Repair));
}

/// How many of the kinds in `a + b` are `k`: those in `a` and those in `b`.
proof fn lemma_count_kind_concat(a: Seq<OperationKind>, b: Seq<OperationKind>, k: OperationKind)
    ensures
        count_kind(a + b, k) == count_kind(a, k) + count_kind(b, k),
    decreases b.len(),
{
    if b.len() == 0 {
        assert(a + b =~= a);
    } else {
        lemma_count_kind_concat(a, b.drop_last(), k);
        assert((a + b).drop_last() =~= a + b.drop_last());
        assert((a + b).last() == b.last());
    }
}

/// Replaying operations in two runs counts what replaying them in one run
/// counts.
pub proof fn lemma_after_replay_concat(s: RecoveryStats, a: Seq<OperationKind>, b: Seq<OperationKind>)
    ensures
        after_replay(after_replay(s, a), b) == after_replay(s, a + b),
{
    lemma_count_kind_concat(a, b, OperationKind::Commit);
    lemma_count_kind_concat(a, b, OperationKind::Rollback);
    lemma_count_kind_concat(a, b, OperationKind::Checkpoint);
    lemma_count_kind_concat(a, b, OperationKind::Repair);
    lemma_add_count_twice(s.transactions_recovered, count_kind(a, OperationKind::Commit), count_kind(b, OperationKind::Commit));
    lemma_add_count_twice(s.transactions_rolled_back, count_kind(a, OperationKind::Rollback), count_kind(b, OperationKind::Rollback));
    lemma_add_count_twice(s.checkpoints_created, count_kind(a, OperationKind::Checkpoint), count_kind(b, OperationKind::Checkpoint));
    lemma_add_count_twice(s.corruptions_repaired, count_kind(a, OperationKind::Repair), count_kind(b, OperationKind::Repair));
}

/// Whether `elapsed_ns` nanoseconds exceed a limit of `timeout_seconds`
/// seconds.
pub fn replay_past_limit(elapsed_ns: u128, timeout_seconds: u64) -> (r: bool)
    ensures
        r == (elapsed_ns > timeout_seconds as u128 * 1_000_000_000),
{
    elapsed_ns > (timeout_seconds as u128) * 1_000_000_000
}

/// The nanoseconds past which a replay of `timeout_seconds` stops.
pub open spec fn replay_limit_ns(timeout_seconds: u64) -> int {
    timeout_seconds as u128 * 1_000_000_000
}

/// Every one of `rs` is a reading the clock `now` can give, none past the
/// replay limit.
pub open spec fn readings_within<C: Fn() -> u128>(now: C, rs: Seq<u128>, timeout_seconds: u64) -> bool {
    forall|i: int| 0 <= i < rs.len() ==> #[trigger] call_ensures(now, (), rs[i]) && rs[i] <= replay_limit_ns(timeout_seconds)
}

/// One step of a replay at the clock reading `elapsed_ns`: past the limit of
/// `timeout_seconds`, a timeout error and the statistics unchanged; else the
/// entry's operation counted.
pub fn replay_step(stats: &mut RecoveryStats, entry: &WALEntry, elapsed_ns: u128, timeout_seconds: u64) -> (r: Result<(), AsterError>)
    ensures
        r is Err <==> replay_past_limit_spec(elapsed_ns, timeout_seconds),
        match r {
            Ok(()) => *final(stats) == after_replay(*old(stats), seq![op_kind(entry.operation)]),
            Err(e) => e.spec_kind() == ErrorKind::Timeout && e.spec_text() == "Recovery timeout exceeded"@ && *final(stats) == *old(stats),
        },
{
    if replay_past_limit(elapsed_ns, timeout_seconds) {
        return Err(AsterError::timeout("Recovery timeout exceeded"));
    }
    let kind = entry.operation.kind();
    stats.record_replayed(kind);
    Ok(())
}

/// A reading past the limit of `timeout_seconds`.
pub open spec fn replay_past_limit_spec(elapsed_ns: u128, timeout_seconds: u64) -> bool {
    elapsed_ns > replay_limit_ns(timeout_seconds)
}

/// Replays the entries in order, counting each operation; before each entry
/// the elapsed time is checked against the timeout, and a run past it stops
/// with a timeout error. A finished replay also counts the entries replayed.
/// Whatever the clock reads, the statistics count exactly the entries before
/// the stop.
pub fn replay_entries(stats: &mut RecoveryStats, entries: &[WALEntry], timeout_seconds: u64) -> (r: Result<(), AsterError>)
    ensures
        match r {
            Ok(()) => *final(stats) == (RecoveryStats {
                wal_entries_replayed: add_count(after_replay(*old(stats), entry_kinds(entries@)).wal_entries_replayed, entries@.len()),
                ..after_replay(*old(stats), entry_kinds(entries@))
            }),
            Err(e) => e.spec_kind() == ErrorKind::Timeout && e.spec_text() == "Recovery timeout exceeded"@
                && exists|k: int| 0 <= k < entries@.len() && *final(stats) == after_replay(*old(stats), entry_kinds(entries@.take(k))),
        },
{
    let start = instant_now();
    let clock = || -> (t: u128) { elapsed_nanos(&start) };
    replay_entries_with_clock(stats, entries, timeout_seconds, &clock)
}

/// As [`replay_entries`], with the elapsed nanoseconds read from `now_ns`
/// before each entry: the replay stops at the first reading past the limit,
/// having counted the entries before it, and a finished replay read the
/// clock once per entry with every reading within the limit.
pub fn replay_entries_with_clock<C: Fn() -> u128>(
    stats: &mut RecoveryStats,
    entries: &[WALEntry],
    timeout_seconds: u64,
    now_ns: &C,
) -> (r: Result<(), AsterError>)
    requires
        call_requires(*now_ns, ()),
    ensures
        match r {
            Ok(()) => {
                &&& *final(stats) == (RecoveryStats {
                    wal_entries_replayed: add_count(after_replay(*old(stats), entry_kinds(entries@)).wal_entries_replayed, entries@.len()),
                    ..after_replay(*old(stats), entry_kinds(entries@))
                })
                &&& exists|rs: Seq<u128>| rs.len() == entries@.len() && #[trigger] readings_within(*now_ns, rs, timeout_seconds)
            },
            Err(e) => {
                &&& e.spec_kind() == ErrorKind::Timeout
                &&& e.spec_text() == "Recovery timeout exceeded"@
                &&& exists|rs: Seq<u128>, t: u128|
                    #![trigger readings_within(*now_ns, rs, timeout_seconds), call_ensures(*now_ns, (), t)]
                    {
                        &&& rs.len() < entries@.len()
                        &&& *final(stats) == after_replay(*old(stats), entry_kinds(entries@.take(rs.len() as int)))
                        &&& readings_within(*now_ns, rs, timeout_seconds)
                        &&& call_ensures(*now_ns, (), t)
                        &&& replay_past_limit_spec(t, timeout_seconds)
                    }
            },
        },
{
    let ghost s0 = *stats;
    let ghost mut rs: Seq<u128> = Seq::empty();
    let mut i: usize = 0;
    proof {
        assert(entry_kinds(entries@.take(0)) =~= Seq::<OperationKind>::empty());
    }
    while i < entries.len()
        invariant
            call_requires(*now_ns, ()),
            i <= entries@.len(),
            *stats == after_replay(s0, entry_kinds(entries@.take(i as int))),
            s0 == *old(stats),
            rs.len() == i,
            readings_within(*now_ns, rs, timeout_seconds),
        decreases entries@.len() - i,
    {
        let t = now_ns();
        let ghost before = *stats;
        match replay_step(stats, &entries[i], t, timeout_seconds) {
            Err(e) => {
                proof {
                    assert(*stats == after_replay(s0, entry_kinds(entries@.take(i as int))));
                }
                return Err(e);
            },
            Ok(()) => {},
        }
        proof {
            let kind = op_kind(entries@[i as int].operation);
            assert(entry_kinds(entries@.take(i + 1)) =~= entry_kinds(entries@.take(i as int)).push(kind));
            lemma_after_replay_push(s0, entry_kinds(entries@.take(i as int)), kind);
            let rs2 = rs.push(t);
            assert forall|j: int| 0 <= j < rs2.len() implies #[trigger] call_ensures(*now_ns, (), rs2[j]) && rs2[j] <= replay_limit_ns(timeout_seconds) by {
                if j < rs.len() {
                    assert(rs2[j] == rs[j]);
                }
            }
            rs = rs2;
        }
        i = i + 1;
    }
    proof {
        assert(entries@.take(entries@.len() as int) =~= entries@);
    }
    stats.wal_entries_replayed = add_wrapping(stats.wal_entries_replayed, entries.len() as u64);
    Ok(())
}

/// Whether a checkpoint is due: always where none was made yet, else once
/// the seconds since the last one reach the interval.
pub fn should_create_checkpoint(seconds_since_last: Option<u64>, interval_seconds: u64) -> (r: bool)
    ensures
        r == match seconds_since_last {
            Some(s) => s >= interval_seconds,
            None => true,
        },
{
    match seconds_since_last {
        Some(s) => s >= interval_seconds,
        None => true,
    }
}

} // verus!
