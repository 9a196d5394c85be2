//! References handed to the viewer: continuation keys, the bounded set of text
//! references, the digest that pins each referenced record, and the pages of a
//! long text.
use crate::activity::{any_notice, association_of, notice_texts, Draft, Scan};
use crate::adapter::{byte_len, Usage};
use crate::calls::{window_contains, Window};
use crate::storage::sha256;
use crate::text::{parse_i128, parsed_i128};
use crate::weekly::Time;
use crate::text::{decimal, digits, lemma_digits_injective, owned, push_char, push_u128, str_eq};
use vstd::prelude::*;
use vstd::utf8::*;

verus! {


/// A request for a page of a referenced text.
#[derive(Clone, Debug)]
pub struct TextQuery {
    pub text_ref: String,
    pub offset: Option<usize>,
}

/// One page of a referenced text and where the next one starts.
#[derive(Clone, Debug)]
pub struct TextPage {
    pub text: String,
    pub next_offset: Option<usize>,
}

/// A displayed field: its label, a preview, and the reference to its full text.
#[derive(Clone, Debug)]
pub struct Field {
    pub label: String,
    pub preview: String,
    pub text_ref: String,
}

/// One activity event as the viewer receives it.
#[derive(Clone, Debug)]
pub struct Event {
    pub id: String,
    pub time: Time,
    pub kind: String,
    pub label: String,
    pub association: &'static str,
    pub parent_id: Option<String>,
    pub fields: Vec<Field>,
    pub status: Option<String>,
    pub paths: Vec<String>,
    pub paths_inferred: bool,
}

/// A page of activity events.
#[derive(Clone, Debug)]
pub struct Page {
    pub events: Vec<Event>,
    pub next_cursor: Option<String>,
    pub scanned_bytes: u64,
    pub total_bytes: u64,
    pub complete: bool,
    pub association: &'static str,
    pub notices: Vec<String>,
}

/// Bytes of text per page.
pub const TEXT_CHUNK: usize = 65536;

/// The greatest character boundary at or before `end`.
pub open spec fn boundary_before(bytes: Seq<u8>, end: int) -> int
    decreases end,
{
    if end <= 0 || is_char_boundary(bytes, end) {
        end
    } else {
        boundary_before(bytes, end - 1)
    }
}

/// The page of a text starting at byte `offset`: up to 64 KiB ending on a
/// character boundary, and where the next page starts. `None` when the offset lies
/// past the text or inside a character.
pub open spec fn chunk_of(bytes: Seq<u8>, offset: int) -> Option<(Seq<u8>, Option<int>)> {
    if offset > bytes.len() || !is_char_boundary(bytes, offset) {
        None
    } else {
        let limit = if bytes.len() - offset > TEXT_CHUNK {
            offset + TEXT_CHUNK
        } else {
            bytes.len() as int
        };
        let end = boundary_before(bytes, limit);
        Some((bytes.subrange(offset, end), if end < bytes.len() { Some(end) } else { None }))
    }
}

/// One page of a text reference's text.
pub fn text_chunk(text: &str, offset: Option<usize>) -> (result: Result<TextPage, &'static str>)
    requires
        encode_utf8(text@).len() <= usize::MAX,
    ensures
        match chunk_of(
            encode_utf8(text@),
            match offset { Some(o) => o as int, None => 0 },
        ) {
            Some((page, next)) => result matches Ok(p) && encode_utf8(p.text@) == page && match p.next_offset {
                Some(x) => next == Some(x as int),
                None => next is None,
            },
            None => result == Err::<TextPage, &'static str>("Invalid text continuation"),
        },
{
    broadcast use encode_utf8_valid_utf8, is_char_boundary_start_end_of_seq, valid_utf8_split;

    let ghost bytes = encode_utf8(text@);
    let offset = match offset {
        Some(o) => o,
        None => 0,
    };
    let len = text.len();
    if offset > len || !text.is_char_boundary(offset) {
        return Err("Invalid text continuation");
    }
    let limit = if len - offset > TEXT_CHUNK { offset + TEXT_CHUNK } else { len };
    let mut end = limit;
    while !text.is_char_boundary(end)
        invariant
            offset <= end <= limit <= len,
            len == bytes.len(),
            bytes == encode_utf8(text@),
            is_char_boundary(bytes, offset as int),
            boundary_before(bytes, limit as int) == boundary_before(bytes, end as int),
        decreases end,
    {
        end = end - 1;
    }
    assert(boundary_before(bytes, end as int) == end as int);
    let (_, rest) = text.split_at(offset);
    proof {
        let tail = bytes.subrange(offset as int, len as int);
        assert(encode_utf8(rest@) =~= tail);
        assert(valid_utf8(bytes));
        assert(valid_utf8(tail));
        if end < len && end > offset {
            is_char_boundary_iff_not_is_continuation_byte(bytes, end as int);
            is_char_boundary_iff_not_is_continuation_byte(tail, (end - offset) as int);
            assert(tail[(end - offset) as int] == bytes[end as int]);
        }
        if end == len {
            assert(tail.len() == end - offset);
        }
        assert(is_char_boundary(tail, (end - offset) as int));
    }
    let (page, _) = rest.split_at(end - offset);
    let page = owned(page);
    assert(encode_utf8(page@) =~= bytes.subrange(offset as int, end as int));
    Ok(TextPage { text: page, next_offset: if end < len { Some(end) } else { None } })
}

/// Whether bytes still have the digest saved for them.
pub fn digest_matches(bytes: &[u8], saved: &[u8]) -> (result: bool)
    ensures
        result == (sha256(bytes@) == saved@),
{
    let actual = crate::storage::fingerprint(&[], bytes);
    assert(Seq::<u8>::empty() + bytes@ =~= bytes@);
    if saved.len() != 32 {
        assert(actual@.len() == 32);
        return false;
    }
    let mut k: usize = 0;
    while k < 32
        invariant
            k <= 32,
            saved@.len() == 32,
            actual@ == sha256(bytes@),
            forall|m: int| 0 <= m < k ==> actual@[m] == saved@[m],
        decreases 32 - k,
    {
        if actual[k] != saved[k] {
            assert(actual@[k as int] != saved@[k as int]);
            return false;
        }
        k = k + 1;
    }
    assert(actual@ =~= saved@);
    true
}

/// The digest saved with a reference to a record.
pub fn record_digest(bytes: &[u8]) -> (result: Vec<u8>)
    ensures
        result@ == sha256(bytes@),
{
    let actual = crate::storage::fingerprint(&[], bytes);
    assert(Seq::<u8>::empty() + bytes@ =~= bytes@);
    let mut out: Vec<u8> = Vec::new();
    let mut k: usize = 0;
    while k < 32
        invariant
            k <= 32,
            out@ == actual@.take(k as int),
        decreases 32 - k,
    {
        out.push(actual[k]);
        assert(out@ =~= actual@.take(k + 1));
        k = k + 1;
    }
    assert(actual@.take(32) =~= actual@);
    out
}

pub const MAX_TEXTS: usize = 2048;

pub const MAX_SCANS: usize = 8;

/// A continuation key: a prefix, `-`, and a sequence number.
pub open spec fn key_text(prefix: Seq<char>, sequence: u64) -> Seq<char> {
    prefix + seq!['-'] + decimal(sequence as int)
}

/// Strict lexicographic order of texts by character (the order of UTF-8 bytes).
pub open spec fn text_lt(a: Seq<char>, b: Seq<char>) -> bool
    decreases a.len(),
{
    if a.len() == 0 {
        b.len() > 0
    } else if b.len() == 0 {
        false
    } else if a[0] != b[0] {
        a[0] < b[0]
    } else {
        text_lt(a.skip(1), b.skip(1))
    }
}

fn less(a: &str, b: &str) -> (result: bool)
    ensures
        result == text_lt(a@, b@),
{
    let x = crate::text::chars_of(a);
    let y = crate::text::chars_of(b);
    let mut i: usize = 0;
    assert(a@.skip(0) =~= a@);
    assert(b@.skip(0) =~= b@);
    while i < x.len() && i < y.len() && x[i] == y[i]
        invariant
            i <= x@.len(),
            i <= y@.len(),
            x@ == a@,
            y@ == b@,
            text_lt(a@, b@) == text_lt(a@.skip(i as int), b@.skip(i as int)),
        decreases x@.len() - i,
    {
        assert(a@.skip(i as int).skip(1) =~= a@.skip(i + 1));
        assert(b@.skip(i as int).skip(1) =~= b@.skip(i + 1));
        i = i + 1;
    }
    if i == x.len() {
        i < y.len()
    } else if i == y.len() {
        false
    } else {
        x[i] < y[i]
    }
}

/// The views of keyed entries.
pub open spec fn keyed<V>(entries: Seq<(String, V)>) -> Seq<(Seq<char>, V)> {
    entries.map_values(|e: (String, V)| (e.0@, e.1))
}

/// Keys occur at most once.
pub open spec fn distinct_keys<V>(entries: Seq<(String, V)>) -> bool {
    forall|i: int, j: int|
        0 <= i < j < entries.len() ==> (#[trigger] entries[i]).0@ != (#[trigger] entries[j]).0@
}

/// The position of the least key.
pub open spec fn least_at<V>(entries: Seq<(String, V)>, k: int) -> bool {
    &&& 0 <= k < entries.len()
    &&& forall|i: int| 0 <= i < entries.len() && i != k ==> text_lt(entries[k].0@, (#[trigger] entries[i]).0@)
}

/// Continuation keys and the references a viewer may follow: a few paused scans
/// keyed for their next page, and recent text references in the order they were
/// handed out.
pub struct Cache<S, T> {
    pub sequence: u64,
    pub scans: Vec<(String, S)>,
    pub texts: Vec<(u64, T)>,
}

impl<S, T> Cache<S, T> {
    /// Well formed: at most eight scans and 2048 texts, keys unique.
    pub open spec fn wf(&self) -> bool {
        &&& self.scans@.len() <= MAX_SCANS
        &&& self.texts@.len() <= MAX_TEXTS
        &&& distinct_keys(self.scans@)
        &&& forall|i: int, j: int|
            0 <= i < j < self.texts@.len() ==> (#[trigger] self.texts@[i]).0 < (
            #[trigger] self.texts@[j]).0
        &&& forall|i: int| 0 <= i < self.texts@.len() ==> (#[trigger] self.texts@[i]).0 <= self.sequence
    }

    /// An empty cache.
    pub fn new() -> (result: Self)
        ensures
            result.wf(),
            result.sequence == 0,
            result.scans@.len() == 0,
            result.texts@.len() == 0,
    {
        Cache { sequence: 0, scans: Vec::new(), texts: Vec::new() }
    }

    /// A fresh key: the next sequence number after the prefix.
    pub fn key(&mut self, prefix: &str) -> (result: String)
        requires
            old(self).sequence < u64::MAX,
        ensures
            final(self).sequence == old(self).sequence + 1,
            final(self).scans == old(self).scans,
            final(self).texts == old(self).texts,
            result@ == key_text(prefix@, final(self).sequence),
    {
        self.sequence = self.sequence + 1;
        let mut key = owned(prefix);
        push_char(&mut key, '-');
        push_u128(&mut key, self.sequence as u128);
        key
    }

    /// Hands out a text reference for a source; the oldest of 2048 references is
    /// forgotten first.
    pub fn text(&mut self, source: T) -> (result: String)
        requires
            old(self).wf(),
            old(self).sequence < u64::MAX,
        ensures
            final(self).wf(),
            final(self).sequence == old(self).sequence + 1,
            result@ == key_text("text"@, final(self).sequence),
            final(self).scans == old(self).scans,
            final(self).texts@ == (if old(self).texts@.len() >= MAX_TEXTS {
                old(self).texts@.drop_first()
            } else {
                old(self).texts@
            }).push((final(self).sequence, source)),
    {
        let key = self.key("text");
        if self.texts.len() >= MAX_TEXTS {
            self.texts.remove(0);
        }
        let ghost kept = self.texts@;
        self.texts.push((self.sequence, source));
        assert forall|i: int, j: int|
            0 <= i < j < self.texts@.len() implies (#[trigger] self.texts@[i]).0 < (
            #[trigger] self.texts@[j]).0 by {
            assert(self.texts@[i] == kept[i]);
        }
        key
    }

    /// The source of a text reference, while it is remembered.
    pub fn text_source(&self, key: &str) -> (result: Option<&T>)
        ensures
            match result {
                Some(t) => exists|i: int|
                    0 <= i < self.texts@.len() && key_text("text"@, self.texts@[i].0) == key@
                        && self.texts@[i].1 == *t,
                None => forall|i: int|
                    0 <= i < self.texts@.len() ==> key_text("text"@, self.texts@[i].0) != key@,
            },
    {
        let mut i: usize = 0;
        while i < self.texts.len()
            invariant
                i <= self.texts@.len(),
                forall|k: int| 0 <= k < i ==> key_text("text"@, self.texts@[k].0) != key@,
            decreases self.texts@.len() - i,
        {
            let mut candidate = owned("text");
            push_char(&mut candidate, '-');
            push_u128(&mut candidate, self.texts[i].0 as u128);
            assert(candidate@ =~= key_text("text"@, self.texts@[i as int].0));
            if str_eq(candidate.as_str(), key) {
                return Some(&self.texts[i].1);
            }
            i = i + 1;
        }
        None
    }

    /// Takes the paused scan a continuation key names.
    pub fn take_scan(&mut self, key: &str) -> (result: Option<S>)
        requires
            old(self).wf(),
        ensures
            final(self).wf(),
            final(self).sequence == old(self).sequence,
            final(self).texts == old(self).texts,
            match result {
                Some(s) => exists|i: int|
                    0 <= i < old(self).scans@.len() && old(self).scans@[i].0@ == key@
                        && old(self).scans@[i].1 == s && final(self).scans@ == old(
                        self,
                    ).scans@.remove(i),
                None => final(self).scans@ == old(self).scans@ && forall|i: int|
                    0 <= i < old(self).scans@.len() ==> old(self).scans@[i].0@ != key@,
            },
    {
        let mut i: usize = 0;
        while i < self.scans.len()
            invariant
                i <= self.scans@.len(),
                self.scans@ == old(self).scans@,
                self.texts == old(self).texts,
                self.sequence == old(self).sequence,
                old(self).wf(),
                forall|k: int| 0 <= k < i ==> self.scans@[k].0@ != key@,
            decreases self.scans@.len() - i,
        {
            if str_eq(self.scans[i].0.as_str(), key) {
                let (_, scan) = self.scans.remove(i);
                assert forall|a: int, b: int|
                    0 <= a < b < self.scans@.len() implies (#[trigger] self.scans@[a]).0@
                    != (#[trigger] self.scans@[b]).0@ by {
                    let oa = if a < i { a } else { a + 1 };
                    let ob = if b < i { b } else { b + 1 };
                    assert(self.scans@[a] == old(self).scans@[oa]);
                    assert(self.scans@[b] == old(self).scans@[ob]);
                }
                return Some(scan);
            }
            i = i + 1;
        }
        None
    }

    fn least_key(&self) -> (result: usize)
        requires
            self.scans@.len() > 0,
            distinct_keys(self.scans@),
        ensures
            least_at(self.scans@, result as int),
    {
        let mut best: usize = 0;
        let mut i: usize = 1;
        while i < self.scans.len()
            invariant
                1 <= i <= self.scans@.len(),
                best < i,
                distinct_keys(self.scans@),
                forall|k: int| 0 <= k < i && k != best ==> text_lt(self.scans@[best as int].0@, (#[trigger] self.scans@[k]).0@),
            decreases self.scans@.len() - i,
        {
            if less(self.scans[i].0.as_str(), self.scans[best].0.as_str()) {
                proof {
                    assert forall|k: int| 0 <= k < i + 1 && k != i implies text_lt(
                        self.scans@[i as int].0@,
                        (#[trigger] self.scans@[k]).0@,
                    ) by {
                        if k != best {
                            lemma_text_lt_transitive(
                                self.scans@[i as int].0@,
                                self.scans@[best as int].0@,
                                self.scans@[k].0@,
                            );
                        }
                    }
                }
                best = i;
            } else {
                proof {
                    lemma_text_lt_total(self.scans@[i as int].0@, self.scans@[best as int].0@);
                }
            }
            i = i + 1;
        }
        best
    }

    /// Keeps a paused scan for its continuation key; with eight kept, the one with
    /// the least key is dropped first.
    pub fn keep_scan(&mut self, key: String, scan: S)
        requires
            old(self).wf(),
            forall|i: int| 0 <= i < old(self).scans@.len() ==> old(self).scans@[i].0@ != key@,
        ensures
            final(self).wf(),
            final(self).sequence == old(self).sequence,
            final(self).texts == old(self).texts,
            old(self).scans@.len() >= MAX_SCANS ==> exists|k: int|
                least_at(old(self).scans@, k) && final(self).scans@ == old(self).scans@.remove(
                    k,
                ).push((key, scan)),
            old(self).scans@.len() < MAX_SCANS ==> final(self).scans@ == old(self).scans@.push(
                (key, scan),
            ),
    {
        if self.scans.len() >= MAX_SCANS {
            let k = self.least_key();
            let ghost before = self.scans@;
            self.scans.remove(k);
            assert forall|a: int, b: int|
                0 <= a < b < self.scans@.len() implies (#[trigger] self.scans@[a]).0@
                != (#[trigger] self.scans@[b]).0@ by {
                let oa = if a < k { a } else { a + 1 };
                let ob = if b < k { b } else { b + 1 };
                assert(self.scans@[a] == before[oa]);
                assert(self.scans@[b] == before[ob]);
            }
            assert forall|i: int| 0 <= i < self.scans@.len() implies self.scans@[i].0@ != key@ by {
                let oi = if i < k { i } else { i + 1 };
                assert(self.scans@[i] == before[oi]);
            }
        }
        let ghost kept = self.scans@;
        self.scans.push((key, scan));
        assert forall|a: int, b: int|
            0 <= a < b < self.scans@.len() implies (#[trigger] self.scans@[a]).0@
            != (#[trigger] self.scans@[b]).0@ by {
            if b == self.scans@.len() - 1 {
                assert(self.scans@[a] == kept[a]);
            } else {
                assert(self.scans@[a] == kept[a]);
                assert(self.scans@[b] == kept[b]);
            }
        }
    }
}

proof fn lemma_text_lt_transitive(a: Seq<char>, b: Seq<char>, c: Seq<char>)
    requires
        text_lt(a, b),
        text_lt(b, c),
    ensures
        text_lt(a, c),
    decreases a.len(),
{
    if a.len() > 0 && b.len() > 0 && c.len() > 0 && a[0] == b[0] && b[0] == c[0] {
        lemma_text_lt_transitive(a.skip(1), b.skip(1), c.skip(1));
    }
}

proof fn lemma_text_lt_total(a: Seq<char>, b: Seq<char>)
    requires
        a != b,
        !text_lt(a, b),
    ensures
        text_lt(b, a),
    decreases a.len(),
{
    if a.len() == 0 {
        assert(b.len() == 0);
        assert(a =~= b);
    } else if b.len() == 0 {
    } else if a[0] == b[0] {
        if a.skip(1) == b.skip(1) {
            assert(a =~= seq![a[0]] + a.skip(1));
            assert(b =~= seq![b[0]] + b.skip(1));
        }
        lemma_text_lt_total(a.skip(1), b.skip(1));
    } else {
    }
}

/// Continuation keys never repeat: two sequence numbers give two keys under any
/// prefix, so every key handed out is fresh.
pub proof fn law_keys_never_repeat(prefix: Seq<char>, a: u64, b: u64)
    requires
        a != b,
    ensures
        key_text(prefix, a) != key_text(prefix, b),
{
    if key_text(prefix, a) == key_text(prefix, b) {
        let head = prefix + seq!['-'];
        assert(key_text(prefix, a).skip(head.len() as int) =~= digits(a as nat));
        assert(key_text(prefix, b).skip(head.len() as int) =~= digits(b as nat));
        lemma_digits_injective(a as nat, b as nat);
    }
}

/// Text references are never reused: in a well-formed cache, distinct entries
/// answer to distinct keys, so a key names at most one remembered text.
pub proof fn law_text_keys_are_unique<S, T>(cache: Cache<S, T>, i: int, j: int)
    requires
        cache.wf(),
        0 <= i < cache.texts@.len(),
        0 <= j < cache.texts@.len(),
        i != j,
    ensures
        key_text("text"@, cache.texts@[i].0) != key_text("text"@, cache.texts@[j].0),
{
    law_keys_never_repeat("text"@, cache.texts@[i].0, cache.texts@[j].0);
}

/// The text entries after handing out one reference: the oldest of 2048 goes first.
pub open spec fn texts_pushed<T>(texts: Seq<(u64, T)>, number: u64, source: T) -> Seq<(u64, T)> {
    (if texts.len() >= MAX_TEXTS {
        texts.drop_first()
    } else {
        texts
    }).push((number, source))
}

/// The text entries after handing out references for several sources in order,
/// numbered after `sequence`.
pub open spec fn texts_after<T>(texts: Seq<(u64, T)>, sequence: u64, sources: Seq<T>) -> Seq<(u64, T)>
    decreases sources.len(),
{
    if sources.len() == 0 {
        texts
    } else {
        texts_pushed(
            texts_after(texts, sequence, sources.drop_last()),
            (sequence + sources.len()) as u64,
            sources.last(),
        )
    }
}

impl<S, T> Cache<S, T> {
    /// The event a scan drafted, each field carrying a fresh reference to its
    /// source (`sources` holds one per field, in order).
    pub fn publish(&mut self, draft: Draft, sources: Vec<T>) -> (result: Event)
        requires
            old(self).wf(),
            sources@.len() == draft.fields@.len(),
            old(self).sequence + sources@.len() <= u64::MAX,
        ensures
            final(self).wf(),
            final(self).sequence == old(self).sequence + sources@.len(),
            final(self).scans == old(self).scans,
            final(self).texts@ == texts_after(old(self).texts@, old(self).sequence, sources@),
            result.id == draft.id,
            result.time == draft.time,
            result.kind == draft.kind,
            result.label == draft.label,
            result.association == draft.association,
            result.parent_id == draft.parent_id,
            result.status == draft.status,
            result.paths == draft.paths,
            result.paths_inferred == draft.paths_inferred,
            result.fields@.len() == draft.fields@.len(),
            forall|i: int|
                0 <= i < draft.fields@.len() ==> {
                    &&& (#[trigger] result.fields@[i]).label@ == draft.fields@[i].label@
                    &&& result.fields@[i].preview == draft.fields@[i].preview
                    &&& result.fields@[i].text_ref@ == key_text(
                        "text"@,
                        (old(self).sequence + i + 1) as u64,
                    )
                },
    {
        let mut fields: Vec<Field> = Vec::new();
        let ghost all = sources@;
        let mut sources = sources;
        let mut remaining: Vec<T> = Vec::new();
        while sources.len() > 0
            invariant
                sources@.len() + remaining@.len() == all.len(),
                forall|k: int| 0 <= k < remaining@.len() ==> remaining@[k] == all[all.len() - 1 - k],
                forall|k: int| 0 <= k < sources@.len() ==> sources@[k] == all[k],
            decreases sources@.len(),
        {
            let last = sources.pop().unwrap();
            remaining.push(last);
        }
        let mut i: usize = 0;
        while i < draft.fields.len()
            invariant
                i <= draft.fields@.len(),
                all.len() == draft.fields@.len(),
                remaining@.len() == all.len() - i,
                forall|k: int| 0 <= k < remaining@.len() ==> remaining@[k] == all[all.len() - 1 - k],
                self.wf(),
                self.sequence == old(self).sequence + i,
                old(self).sequence + all.len() <= u64::MAX,
                self.scans == old(self).scans,
                self.texts@ == texts_after(old(self).texts@, old(self).sequence, all.take(i as int)),
                fields@.len() == i,
                forall|k: int|
                    0 <= k < i ==> {
                        &&& (#[trigger] fields@[k]).label@ == draft.fields@[k].label@
                        &&& fields@[k].preview == draft.fields@[k].preview
                        &&& fields@[k].text_ref@ == key_text(
                            "text"@,
                            (old(self).sequence + k + 1) as u64,
                        )
                    },
            decreases draft.fields@.len() - i,
        {
            let source = remaining.pop().unwrap();
            assert(source == all[i as int]);
            let key = self.text(source);
            proof {
                assert(all.take(i + 1).drop_last() =~= all.take(i as int));
            }
            let field = &draft.fields[i];
            fields.push(Field { label: owned(field.label), preview: field.preview.clone(), text_ref: key });
            i = i + 1;
        }
        assert(all.take(all.len() as int) =~= all);
        Event {
            id: draft.id,
            time: draft.time,
            kind: draft.kind,
            label: draft.label,
            association: draft.association,
            parent_id: draft.parent_id,
            fields,
            status: draft.status,
            paths: draft.paths,
            paths_inferred: draft.paths_inferred,
        }
    }
}

/// A page of a scan's events: a continuation key while more of the source remains,
/// how far the scan read, whether it is complete, and its notices.
pub fn page_of(scan: &Scan, events: Vec<Event>, key: String) -> (result: Page)
    ensures
        result.events == events,
        result.next_cursor == if !scan.finished && scan.offset < scan.anchor.size {
            Some(key)
        } else {
            None
        },
        result.scanned_bytes == scan.offset,
        result.total_bytes == scan.anchor.size,
        result.complete == (!(!scan.finished && scan.offset < scan.anchor.size) && !any_notice(
            scan.notices,
        )),
        result.association == association_of(scan@),
        result.notices@.map_values(|n: String| n@) == notice_texts(scan.notices).map_values(
            |n: &'static str| n@,
        ),
{
    let more = scan.more();
    let texts = scan.notices.texts();
    let mut notices: Vec<String> = Vec::new();
    let mut i: usize = 0;
    while i < texts.len()
        invariant
            i <= texts@.len(),
            notices@.map_values(|n: String| n@) == texts@.map_values(|n: &'static str| n@).take(
                i as int,
            ),
        decreases texts@.len() - i,
    {
        let ghost before = notices@.map_values(|n: String| n@);
        notices.push(owned(texts[i]));
        assert(notices@.map_values(|n: String| n@) =~= before.push(texts@[i as int]@));
        assert(texts@.map_values(|n: &'static str| n@).take(i + 1) =~= texts@.map_values(
            |n: &'static str| n@,
        ).take(i as int).push(texts@[i as int]@));
        i = i + 1;
    }
    assert(texts@.map_values(|n: &'static str| n@).take(texts@.len() as int) =~= texts@.map_values(
        |n: &'static str| n@,
    ));
    Page {
        events,
        next_cursor: if more { Some(key) } else { None },
        scanned_bytes: scan.offset,
        total_bytes: scan.anchor.size,
        complete: scan.complete(),
        association: scan.association(),
        notices,
    }
}

/// The observation an invocation names: its identifier as std parses a positive
/// `i64`.
pub open spec fn invocation_of(id: Seq<char>) -> Option<i64> {
    match parsed_i128(id) {
        Some(n) => if 0 < n <= i64::MAX {
            Some(n as i64)
        } else {
            None
        },
        None => None,
    }
}

/// Reads an invocation identifier.
pub fn invocation_id(id: &str) -> (result: Result<i64, &'static str>)
    ensures
        match invocation_of(id@) {
            Some(n) => result == Ok::<i64, &'static str>(n),
            None => result == Err::<i64, &'static str>("Invalid invocation"),
        },
{
    match parse_i128(id) {
        Some(n) => if 0 < n && n <= i64::MAX as i128 {
            Ok(n as i64)
        } else {
            Err("Invalid invocation")
        },
        None => Err("Invalid invocation"),
    }
}

/// Whether an optional identifier is longer than 1024 bytes.
pub open spec fn oversized(value: Option<String>) -> bool {
    value matches Some(v) && byte_len(v@) > 1024
}

/// The checks a retained invocation passes before its source is opened: a
/// non-negative offset, a time inside the selected window, and identifiers the
/// scan can hold. The result is the offset.
pub open spec fn anchor_check_of(offset: i64, time: Time, window: Window, usage: Usage) -> Result<
    u64,
    &'static str,
> {
    if offset < 0 {
        Err("Invalid source offset")
    } else if !window_contains(window, time) {
        Err("Invocation is outside the selected interval")
    } else if oversized(usage.session_id) || oversized(usage.turn_id) || oversized(
        usage.root_turn_id,
    ) || oversized(usage.response_id) {
        Err("Activity identifiers exceed inspection limits; saved accounting remains available")
    } else {
        Ok(offset as u64)
    }
}

fn long(value: &Option<String>) -> (result: bool)
    ensures
        result == oversized(*value),
{
    match value {
        Some(v) => v.as_str().len() > 1024,
        None => false,
    }
}

/// Checks a retained invocation before its source is opened.
pub fn anchor_check(offset: i64, time: Time, window: &Window, usage: &Usage) -> (result: Result<
    u64,
    &'static str,
>)
    ensures
        result == anchor_check_of(offset, time, *window, *usage),
{
    if offset < 0 {
        return Err("Invalid source offset");
    }
    if !window.contains(time) {
        return Err("Invocation is outside the selected interval");
    }
    if long(&usage.session_id) || long(&usage.turn_id) || long(&usage.root_turn_id) || long(
        &usage.response_id,
    ) {
        return Err(
            "Activity identifiers exceed inspection limits; saved accounting remains available",
        );
    }
    Ok(offset as u64)
}

/// A source file may supply the invocation's record only when its identity is the
/// one registered for it, if any.
pub fn identity_matches(expected: &Option<String>, identity: &str) -> (result: bool)
    ensures
        result == match *expected {
            Some(e) => e@ == identity@,
            None => true,
        },
{
    match expected {
        Some(e) => str_eq(e.as_str(), identity),
        None => true,
    }
}

} // verus!
