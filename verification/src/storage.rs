//! Decisions of the accounting store that hold without the database: what is
//! accumulated per scope, how stored progress is judged, and how a batch of
//! source bytes becomes records.
pub mod aggregates;
pub mod calls;
pub mod dashboard;
pub mod pricing;
pub mod records;
pub mod retention;

use vstd::prelude::*;

verus! {

pub const MAX_BATCH_LINES: usize = 64;
pub const MAX_LINE: usize = 2097152;
pub const VERIFICATION_BYTES: u64 = 4096;
/// New bytes one read unit may consume from a source file (256 KiB).
pub const READ_BUDGET: u64 = 262144;

/// Why a store operation failed.
#[derive(Clone, Copy, Debug, PartialEq, Eq, Structural)]
pub enum Error {
    Database,
    Encoding,
    Io,
    Offset,
    StaleBatch,
    RecoveryMetadata,
    Schema,
}

impl Error {
    /// The user-facing explanation of this error.
    pub fn message(&self) -> (result: &'static str)
        ensures
            result == error_message(*self),
    {
        match self {
            Error::Database => "Local database operation failed",
            Error::Encoding => "Normalized metadata could not be encoded",
            Error::Io => "Source could not be read",
            Error::Offset => "Source checkpoint exceeds supported range",
            Error::StaleBatch => "Source batch no longer matches its checkpoint",
            Error::RecoveryMetadata => "Invalid source recovery metadata",
            Error::Schema => "Database schema is newer than this application",
        }
    }
}

/// The explanation of each store error.
pub open spec fn error_message(e: Error) -> &'static str {
    match e {
        Error::Database => "Local database operation failed",
        Error::Encoding => "Normalized metadata could not be encoded",
        Error::Io => "Source could not be read",
        Error::Offset => "Source checkpoint exceeds supported range",
        Error::StaleBatch => "Source batch no longer matches its checkpoint",
        Error::RecoveryMetadata => "Invalid source recovery metadata",
        Error::Schema => "Database schema is newer than this application",
    }
}

/// A session's most recent accounting snapshot.
#[derive(Clone, Debug)]
pub struct Snapshot {
    pub thread_id: Option<String>,
    pub direct_tokens: Option<String>,
    pub observed_at: Option<String>,
    pub coverage: String,
    pub diagnostic: Option<String>,
    pub source_available: bool,
}

/// Where reading a source resumes. Only boundaries and a fixed-size digest are
/// durable; never the bytes of an unfinished record.
#[derive(Clone, Copy, Debug, PartialEq, Eq)]
pub struct SourceProgress {
    pub offset: u64,
    pub ordinal: i64,
    pub known_size: u64,
    pub tail_length: u64,
    pub tail_discarding: bool,
    pub verification_start: u64,
    pub verification_length: u32,
    pub verification_hash: Option<[u8; 32]>,
}

/// A source's generation, its file identity and its progress.
#[derive(Clone, Debug)]
pub struct SourceState {
    pub generation: i64,
    pub identity: Option<String>,
    pub progress: SourceProgress,
}

/// Stored progress is consistent: offsets within the known size, an unfinished
/// record and the verified window inside it, a window of at most 4096 bytes with a
/// digest exactly when it is nonempty, and a discarded record only while one is
/// unfinished.
pub open spec fn valid_progress(p: SourceProgress) -> bool {
    &&& p.known_size <= i64::MAX
    &&& p.offset <= p.known_size
    &&& p.ordinal >= 0
    &&& p.tail_length <= p.known_size - p.offset
    &&& p.verification_start <= p.known_size
    &&& p.verification_length <= p.known_size - p.verification_start
    &&& p.verification_length <= VERIFICATION_BYTES
    &&& (p.verification_length == 0) == (p.verification_hash is None)
    &&& !(p.tail_discarding && p.tail_length == 0)
}

/// Checks stored progress before a source is resumed from it.
pub fn validate_progress(progress: &SourceProgress) -> (result: Result<(), Error>)
    ensures
        result is Ok <==> valid_progress(*progress),
        result is Err ==> result == Err::<(), Error>(Error::RecoveryMetadata),
{
    if progress.known_size > i64::MAX as u64
        || progress.offset > progress.known_size
        || progress.ordinal < 0
        || progress.tail_length > progress.known_size - progress.offset
        || progress.verification_start > progress.known_size
        || progress.verification_length as u64 > progress.known_size - progress.verification_start
        || progress.verification_length as u64 > VERIFICATION_BYTES
        || (progress.verification_length == 0) != progress.verification_hash.is_none()
        || (progress.tail_discarding && progress.tail_length == 0)
    {
        return Err(Error::RecoveryMetadata);
    }
    Ok(())
}

/// A source must be read again from its start when its file identity changed,
/// it shrank below what was read, or the saved window no longer matches.
pub fn must_restart(stored: &Option<String>, identity: &String, size: u64, known_size: u64,
    verification_failed: bool) -> (result: bool)
    ensures
        result == ((stored matches Some(old) && old@ != identity@) || size < known_size || verification_failed),
{
    let changed = match stored {
        Some(old) => !crate::text::str_eq(old.as_str(), identity.as_str()),
        None => false,
    };
    changed || size < known_size || verification_failed
}

/// One complete record of a batch: its byte range, its ordinal in the source, and
/// its bytes, absent when the record exceeded the line limit and was skipped.
#[derive(Clone, Debug)]
pub struct LineSpan {
    pub start: u64,
    pub end: u64,
    pub ordinal: i64,
    pub bytes: Option<Vec<u8>>,
}

/// A read batch: its complete records, the progress to save (its digest is
/// computed over the new verification window by the caller when the cursor is
/// past the start), and how far the source was consumed.
#[derive(Clone, Debug)]
pub struct Batch {
    pub lines: Vec<LineSpan>,
    pub progress: SourceProgress,
    pub cursor: u64,
}

/// Reading state: progress, the unfinished record's bytes, the complete records,
/// the cursor, and whether the ordinal left its range.
pub struct Reading {
    pub progress: SourceProgress,
    pub tail: Seq<u8>,
    pub lines: Seq<(u64, u64, i64, Option<Seq<u8>>)>,
    pub cursor: int,
    pub failed: bool,
}

/// The reading state after one more byte: it extends the unfinished record (which
/// is dropped once it exceeds the line limit), and a newline completes it.
pub open spec fn read_byte(s: Reading, b: u8) -> Reading {
    let cursor = s.cursor + 1;
    let overflow = !s.progress.tail_discarding && s.tail.len() + 1 > MAX_LINE;
    let discarding = s.progress.tail_discarding || overflow;
    let tail = if s.progress.tail_discarding { s.tail } else if overflow { Seq::empty() } else { s.tail.push(b) };
    let progress = SourceProgress {
        tail_length: (s.progress.tail_length + 1) as u64,
        tail_discarding: discarding,
        ..s.progress
    };
    if b != 10u8 {
        Reading { progress, tail, cursor, ..s }
    } else if s.progress.ordinal + 1 > i64::MAX {
        Reading { failed: true, progress, tail, cursor, ..s }
    } else {
        let ordinal = (s.progress.ordinal + 1) as i64;
        Reading {
            progress: SourceProgress {
                offset: cursor as u64,
                ordinal,
                tail_length: 0,
                tail_discarding: false,
                ..s.progress
            },
            tail: Seq::empty(),
            lines: s.lines.push((s.progress.offset, cursor as u64, ordinal, if discarding { None } else { Some(tail) })),
            cursor,
            failed: false,
        }
    }
}

/// The reading state after the bytes, stopping once the batch holds its maximum
/// number of records or the ordinal leaves its range.
pub open spec fn read_bytes(start: Reading, bytes: Seq<u8>) -> Reading
    decreases bytes.len(),
{
    if bytes.len() == 0 {
        start
    } else {
        let s = read_bytes(start, bytes.drop_last());
        if s.failed || s.lines.len() >= MAX_BATCH_LINES { s } else { read_byte(s, bytes.last()) }
    }
}

/// The views of a batch's records.
pub open spec fn span_views(lines: Seq<LineSpan>) -> Seq<(u64, u64, i64, Option<Seq<u8>>)> {
    lines.map_values(|l: LineSpan| (l.start, l.end, l.ordinal, match l.bytes { Some(b) => Some(b@), None => None }))
}

/// The state a batch starts from.
pub open spec fn reading_start(progress: SourceProgress, tail: Seq<u8>) -> Reading {
    Reading { progress, tail, lines: Seq::empty(), cursor: progress.offset + progress.tail_length, failed: false }
}

proof fn lemma_read_stays(start: Reading, bytes: Seq<u8>, i: int, j: int)
    requires
        0 <= i <= j <= bytes.len(),
        read_bytes(start, bytes.take(i)).failed || read_bytes(start, bytes.take(i)).lines.len() >= MAX_BATCH_LINES,
    ensures
        read_bytes(start, bytes.take(j)) == read_bytes(start, bytes.take(i)),
    decreases j - i,
{
    if j > i {
        lemma_read_stays(start, bytes, i, j - 1);
        assert(bytes.take(j).drop_last() =~= bytes.take(j - 1));
    }
}

proof fn lemma_read_stops(start: Reading, bytes: Seq<u8>, i: int)
    requires
        0 <= i <= bytes.len(),
        i == bytes.len() || read_bytes(start, bytes.take(i)).lines.len() >= MAX_BATCH_LINES,
    ensures
        read_bytes(start, bytes) == read_bytes(start, bytes.take(i)),
{
    assert(bytes.take(bytes.len() as int) =~= bytes);
    if i < bytes.len() {
        lemma_read_stays(start, bytes, i, bytes.len() as int);
    }
}

/// Splits bytes read after the unfinished record into complete records, at most
/// sixty-four, and the progress that follows them.
#[verifier::loop_isolation(false)]
pub fn read_batch(progress: SourceProgress, tail: Vec<u8>, bytes: &[u8], size: u64) -> (result: Result<Batch, Error>)
    requires
        progress.offset + progress.tail_length + bytes@.len() <= u64::MAX,
        progress.tail_length + bytes@.len() <= u64::MAX,
    ensures
        ({
            let end = read_bytes(reading_start(progress, tail@), bytes@);
            match result {
                Ok(batch) => !end.failed && span_views(batch.lines@) == end.lines && batch.cursor == end.cursor
                    && batch.progress == (SourceProgress {
                        known_size: size,
                        verification_length: if end.cursor < VERIFICATION_BYTES { end.cursor as u32 } else { VERIFICATION_BYTES as u32 },
                        verification_start: (end.cursor - (if end.cursor < VERIFICATION_BYTES { end.cursor } else { VERIFICATION_BYTES as int })) as u64,
                        verification_hash: None,
                        ..end.progress
                    }),
                Err(e) => end.failed && e == Error::Offset,
            }
        }),
{
    let ghost start = reading_start(progress, tail@);
    let mut progress = progress;
    let mut tail = tail;
    let mut lines: Vec<LineSpan> = Vec::new();
    let mut cursor: u64 = progress.offset + progress.tail_length;
    let ghost total = cursor + bytes@.len();
    let mut i: usize = 0;
    assert(bytes@.take(0) =~= Seq::<u8>::empty());
    while i < bytes.len() && lines.len() < MAX_BATCH_LINES
        invariant
            0 <= i <= bytes@.len(),
            total == start.cursor + bytes@.len(),
            total <= u64::MAX,
            cursor == start.cursor + i,
            start.progress.tail_length + bytes@.len() <= u64::MAX,
            progress.tail_length <= start.progress.tail_length + i,
            ({
                let s = read_bytes(start, bytes@.take(i as int));
                &&& !s.failed
                &&& s.progress == progress
                &&& s.tail == tail@
                &&& s.lines == span_views(lines@)
                &&& s.cursor == cursor
            }),
        decreases bytes@.len() - i,
    {
        assert(bytes@.take(i + 1).drop_last() =~= bytes@.take(i as int));
        assert(bytes@.take(i + 1).last() == bytes@[i as int]);
        let b = bytes[i];
        cursor = cursor + 1;
        progress.tail_length = progress.tail_length + 1;
        if !progress.tail_discarding {
            if tail.len() < MAX_LINE {
                tail.push(b);
            } else {
                tail = Vec::new();
                progress.tail_discarding = true;
            }
        }
        if b == 10u8 {
            let ordinal = match progress.ordinal.checked_add(1) {
                Some(o) => o,
                None => {
                    proof {
                        assert(read_bytes(start, bytes@.take(i + 1)).failed);
                        lemma_read_stays(start, bytes@, i + 1, bytes@.len() as int);
                        assert(bytes@.take(bytes@.len() as int) =~= bytes@);
                    }
                    return Err(Error::Offset);
                },
            };
            let ghost before = span_views(lines@);
            let mut finished: Vec<u8> = Vec::new();
            std::mem::swap(&mut finished, &mut tail);
            let ghost finished_view = finished@;
            let record = if progress.tail_discarding { None } else { Some(finished) };
            let ghost item = (progress.offset, cursor, ordinal,
                if progress.tail_discarding { None::<Seq<u8>> } else { Some(finished_view) });
            lines.push(LineSpan { start: progress.offset, end: cursor, ordinal, bytes: record });
            assert(span_views(lines@) =~= before.push(item));
            progress.offset = cursor;
            progress.ordinal = ordinal;
            progress.tail_length = 0;
            progress.tail_discarding = false;
        }
        i = i + 1;
    }
    proof {
        lemma_read_stops(start, bytes@, i as int);
    }
    let length: u64 = if cursor < VERIFICATION_BYTES { cursor } else { VERIFICATION_BYTES };
    progress.known_size = size;
    progress.verification_length = length as u32;
    progress.verification_start = cursor - length;
    progress.verification_hash = None;
    Ok(Batch { lines, progress, cursor })
}

/// The SHA-256 digest that `sha2::Sha256` computes over these bytes.
pub uninterp spec fn sha256(bytes: Seq<u8>) -> Seq<u8>;

/// Calls `sha2::Sha256::digest`. Trusted: the digest is a function of the bytes
/// alone, thirty-two bytes long.
#[verifier::external_body]
fn digest(bytes: &[u8]) -> (result: [u8; 32])
    ensures
        result@ == sha256(bytes@),
{
    <sha2::Sha256 as sha2::Digest>::digest(bytes).into()
}

/// How many bytes of a source's start a fingerprint covers: the fixed prefix up to
/// the saved window's start, at most 4096 bytes, so appends cannot change it.
pub fn fingerprint_prefix(start: u64) -> (result: usize)
    ensures
        result == if start < VERIFICATION_BYTES { start } else { VERIFICATION_BYTES },
{
    if start < VERIFICATION_BYTES {
        start as usize
    } else {
        VERIFICATION_BYTES as usize
    }
}

/// The fingerprint of a source: one digest over its fixed prefix followed by the
/// saved verification window.
pub fn fingerprint(prefix: &[u8], window: &[u8]) -> (result: [u8; 32])
    ensures
        result@ == sha256(prefix@ + window@),
{
    let mut bytes: Vec<u8> = Vec::new();
    let mut i: usize = 0;
    while i < prefix.len()
        invariant
            i <= prefix@.len(),
            bytes@ == prefix@.take(i as int),
        decreases prefix@.len() - i,
    {
        bytes.push(prefix[i]);
        assert(bytes@ =~= prefix@.take(i + 1));
        i = i + 1;
    }
    let mut j: usize = 0;
    while j < window.len()
        invariant
            j <= window@.len(),
            i == prefix@.len(),
            bytes@ == prefix@ + window@.take(j as int),
        decreases window@.len() - j,
    {
        bytes.push(window[j]);
        assert(bytes@ =~= prefix@ + window@.take(j + 1));
        j = j + 1;
    }
    assert(prefix@.take(prefix@.len() as int) =~= prefix@);
    assert(window@.take(window@.len() as int) =~= window@);
    digest(bytes.as_slice())
}

/// Whether the saved verification window no longer matches: a saved digest must be
/// reproduced by the source (`actual` is None when it could not be read); without a
/// saved digest, any progress past the start is unverifiable.
pub open spec fn verification_failed_of(progress: SourceProgress, actual: Option<[u8; 32]>) -> bool {
    match progress.verification_hash {
        Some(expected) => match actual {
            Some(a) => a@ != expected@,
            None => true,
        },
        None => progress.offset > 0 || progress.tail_length > 0,
    }
}

/// Checks a source's saved window against the fingerprint read from it.
pub fn verification_failed(progress: &SourceProgress, actual: Option<[u8; 32]>) -> (result: bool)
    ensures
        result == verification_failed_of(*progress, actual),
{
    match progress.verification_hash {
        Some(expected) => match actual {
            Some(a) => {
                let mut k: usize = 0;
                while k < 32
                    invariant
                        k <= 32,
                        actual == Some(a),
                        progress.verification_hash == Some(expected),
                        forall|m: int| 0 <= m < k ==> a@[m] == expected@[m],
                    decreases 32 - k,
                {
                    if a[k] != expected[k] {
                        assert(a@[k as int] != expected@[k as int]);
                        return true;
                    }
                    k = k + 1;
                }
                assert(a@ =~= expected@);
                false
            },
            None => true,
        },
        None => progress.offset > 0 || progress.tail_length > 0,
    }
}

/// What the store reads for the accounting snapshot: the newest timed
/// observation's session and timestamp, the newest source diagnostic, whether a
/// source waits on a partial line, and for that session its newest observation
/// diagnostic, whether some of its usage is not accepted, and its accepted total;
/// without a session, whether a legacy-only source was seen.
#[derive(Clone, Debug)]
pub struct SnapshotFacts {
    pub selected: Option<(String, Option<String>)>,
    pub diagnostic: Option<String>,
    pub partial: bool,
    pub thread_diagnostic: Option<String>,
    pub unresolved: bool,
    pub total: Option<i64>,
    pub legacy: bool,
}

/// The view of an optional text.
pub open spec fn text_view(value: Option<String>) -> Option<Seq<char>> {
    match value {
        Some(v) => Some(v@),
        None => None,
    }
}

/// The snapshot's diagnostic before a partial line is considered.
pub open spec fn snapshot_diagnostic(facts: SnapshotFacts) -> Option<Seq<char>> {
    match facts.selected {
        Some(_) => match facts.thread_diagnostic {
            Some(m) => if m@ == "Source accounting stopped after an unsupported record"@ {
                Some("Some historical usage remains unavailable until its source is replayed and validated"@)
            } else {
                Some(m@)
            },
            None => text_view(facts.diagnostic),
        },
        None => if facts.legacy && facts.diagnostic is None {
            Some("Legacy-only counters are not supported; usage unavailable"@)
        } else {
            text_view(facts.diagnostic)
        },
    }
}

/// The accounting snapshot: the newest session's direct tokens and coverage
/// sentence, and the most relevant diagnostic (a session's own first, a source's
/// otherwise, then a waiting partial line).
pub open spec fn snapshot_of(facts: SnapshotFacts, result: Snapshot) -> bool {
    &&& result.source_available
    &&& text_view(result.diagnostic) == if facts.partial && snapshot_diagnostic(facts) is None {
        Some("Waiting for an incomplete trailing line to finish"@)
    } else {
        snapshot_diagnostic(facts)
    }
    &&& match facts.selected {
        Some((thread, timestamp)) => {
            &&& result.thread_id == Some(thread)
            &&& result.observed_at == timestamp
            &&& text_view(result.direct_tokens) == match facts.total {
                Some(n) => Some(crate::text::decimal(n as int)),
                None => None,
            }
            &&& result.coverage@ == if facts.unresolved {
                if facts.total is Some {
                    "Incomplete observed direct usage; some observations are pending or unavailable"@
                } else {
                    "Direct usage unavailable; observations are pending or unsupported"@
                }
            } else {
                "Observed direct usage only; history may be incomplete"@
            }
        },
        None => {
            &&& result.thread_id is None
            &&& result.observed_at is None
            &&& result.direct_tokens is None
            &&& result.coverage@ == "Unavailable — waiting for supported modern usage"@
        },
    }
}

/// Builds the accounting snapshot from what the store read.
pub fn snapshot(facts: SnapshotFacts) -> (result: Snapshot)
    ensures
        snapshot_of(facts, result),
{
    let ghost spec_facts = facts;
    let SnapshotFacts { selected, diagnostic, partial, thread_diagnostic, unresolved, total, legacy } = facts;
    let mut snapshot = Snapshot {
        thread_id: None,
        direct_tokens: None,
        observed_at: None,
        coverage: crate::text::owned("Unavailable — waiting for supported modern usage"),
        diagnostic,
        source_available: true,
    };
    proof {
        reveal_strlit("Source accounting stopped after an unsupported record");
    }
    match selected {
        Some((thread, timestamp)) => {
            let own = match thread_diagnostic {
                Some(message) => if crate::text::str_eq(
                    message.as_str(),
                    "Source accounting stopped after an unsupported record",
                ) {
                    Some(crate::text::owned(
                        "Some historical usage remains unavailable until its source is replayed and validated",
                    ))
                } else {
                    Some(message)
                },
                None => None,
            };
            if own.is_some() {
                snapshot.diagnostic = own;
            }
            snapshot.thread_id = Some(thread);
            snapshot.observed_at = timestamp;
            snapshot.direct_tokens = match total {
                Some(n) => Some(crate::text::i128_text(n as i128)),
                None => None,
            };
            snapshot.coverage = crate::text::owned(if unresolved {
                if total.is_some() {
                    "Incomplete observed direct usage; some observations are pending or unavailable"
                } else {
                    "Direct usage unavailable; observations are pending or unsupported"
                }
            } else {
                "Observed direct usage only; history may be incomplete"
            });
        },
        None => {
            if legacy && snapshot.diagnostic.is_none() {
                snapshot.diagnostic = Some(crate::text::owned(
                    "Legacy-only counters are not supported; usage unavailable",
                ));
            }
        },
    }
    if partial && snapshot.diagnostic.is_none() {
        snapshot.diagnostic = Some(crate::text::owned("Waiting for an incomplete trailing line to finish"));
    }
    snapshot
}


/// The reads a batch begins with: the unfinished record's saved bytes (offset and
/// length) unless they are being discarded, then where new bytes start and how many to
/// read.
#[derive(Clone, Copy, Debug)]
pub struct BatchReads {
    pub tail: Option<(u64, u64)>,
    pub cursor: u64,
    pub length: u64,
}

/// Plans a batch's reads: a kept tail longer than a record may be is damaged recovery
/// metadata; new bytes start after the tail and at most `READ_BUDGET` of them are read,
/// up to the file's size.
pub fn batch_reads(progress: &SourceProgress, size: u64) -> (result: Result<BatchReads, Error>)
    ensures
        !progress.tail_discarding && progress.tail_length > MAX_LINE ==> result == Err::<BatchReads, Error>(Error::RecoveryMetadata),
        !(!progress.tail_discarding && progress.tail_length > MAX_LINE) && progress.offset + progress.tail_length > u64::MAX
            ==> result == Err::<BatchReads, Error>(Error::Offset),
        !(!progress.tail_discarding && progress.tail_length > MAX_LINE) && progress.offset + progress.tail_length <= u64::MAX
            ==> (result matches Ok(reads) && {
                let cursor = progress.offset + progress.tail_length;
                &&& reads.tail == if !progress.tail_discarding && progress.tail_length > 0 {
                    Some((progress.offset, progress.tail_length))
                } else {
                    None
                }
                &&& reads.cursor == cursor
                &&& reads.length == if size > cursor {
                    if size - cursor < READ_BUDGET { (size - cursor) as u64 } else { READ_BUDGET }
                } else {
                    0
                }
                &&& reads.length <= READ_BUDGET
            }),
{
    if !progress.tail_discarding && progress.tail_length > MAX_LINE as u64 {
        return Err(Error::RecoveryMetadata);
    }
    let cursor = match progress.offset.checked_add(progress.tail_length) {
        Some(c) => c,
        None => return Err(Error::Offset),
    };
    let tail = if !progress.tail_discarding && progress.tail_length > 0 {
        Some((progress.offset, progress.tail_length))
    } else {
        None
    };
    let available = if size > cursor { size - cursor } else { 0 };
    let length = if available < READ_BUDGET { available } else { READ_BUDGET };
    Ok(BatchReads { tail, cursor, length })
}

} // verus!
