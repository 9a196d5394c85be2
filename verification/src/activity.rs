//! Content is read on demand. The store retains neither messages nor raw-log copies.
//! Tokens and prices are never inferred from commands, text length or timing.
//!
//! A scan walks a source log from the start of the batch that produced one usage
//! record and assigns the surrounding activity to that invocation, or says why it
//! cannot.
pub mod references;

use crate::adapter::{byte_len, observation_time};
use crate::calls::{window_contains, Window};
use crate::text::{chars_of, decimal, push_char, push_str, push_u128, str_eq};
use crate::weekly::Time;
use vstd::prelude::*;

verus! {

pub const SCAN_BYTES: usize = 4194304;
pub const MAX_LINE: usize = 2097152;
pub const PAGE: usize = 100;
pub const MAX_LINKS: usize = 4096;
pub const PREVIEW_CHARS: usize = 400;

// ------------------------------------------------------------------ records

/// What a scan reads of one JSON value (a record's payload, or its `item`):
/// string-valued members as they appear, `started_at_ms` (outer None: absent;
/// inner None: present but not an `i64`), the JSON text of `exit_code`, the
/// displayed text of each present non-null member the scan may show, the keys of
/// an object-valued `changes`, and string-valued `path` and `command`.
#[derive(Clone, Debug)]
pub struct Entry {
    pub kind: Option<String>,
    pub turn_id: Option<String>,
    pub turn_id_camel: Option<String>,
    pub role: Option<String>,
    pub call_id: Option<String>,
    pub id: Option<String>,
    pub name: Option<String>,
    pub compaction_response_id: Option<String>,
    pub started_at_ms: Option<Option<i64>>,
    pub status: Option<String>,
    pub exit_code: Option<String>,
    pub fields: Vec<(String, String)>,
    pub changes: Option<Vec<String>>,
    pub path: Option<String>,
    pub command: Option<String>,
}

/// One log record: its string-valued `type` and `timestamp`, its payload (an
/// empty entry when absent), and the payload's `item` when it has one.
#[derive(Clone, Debug)]
pub struct Record {
    pub kind: Option<String>,
    pub timestamp: Option<String>,
    pub payload: Entry,
    pub item: Option<Entry>,
}

/// A text kept only within `limit` bytes.
pub open spec fn bounded(value: Option<String>, limit: usize) -> Option<String> {
    match value {
        Some(v) => if byte_len(v@) <= limit { Some(v) } else { None },
        None => None,
    }
}

fn bounded_text(value: &Option<String>, limit: usize) -> (result: Option<String>)
    ensures
        result == bounded(*value, limit),
{
    match value {
        Some(v) => if v.as_str().len() <= limit { Some(v.clone()) } else { None },
        None => None,
    }
}

/// The view of an optional text, the empty text when absent.
pub open spec fn or_empty(value: Option<String>) -> Seq<char> {
    match value {
        Some(v) => v@,
        None => Seq::empty(),
    }
}

/// The view of an optional text.
pub open spec fn opt_view(value: Option<String>) -> Option<Seq<char>> {
    match value {
        Some(v) => Some(v@),
        None => None,
    }
}

/// The first of two optional texts that is present.
pub open spec fn either(first: Option<String>, second: Option<String>) -> Option<String> {
    if first is Some { first } else { second }
}

/// The entry a record's item-level members are read from: its item, or its payload.
pub open spec fn item_of(record: Record) -> Entry {
    match record.item {
        Some(item) => item,
        None => record.payload,
    }
}

/// The item kind, kept only within 128 bytes.
pub open spec fn item_kind(record: Record) -> Seq<char> {
    match item_of(record).kind {
        Some(k) => if byte_len(k@) <= 128 { k@ } else { Seq::empty() },
        None => Seq::empty(),
    }
}

/// A generated item: a tool call, reasoning, or an assistant message.
pub open spec fn is_generated(record: Record) -> bool {
    let payload_kind = or_empty(record.payload.kind);
    &&& or_empty(record.kind) == "response_item"@
    &&& (payload_kind == "function_call"@ || payload_kind == "custom_tool_call"@ || payload_kind == "reasoning"@
        || (payload_kind == "message"@ && opt_view(record.payload.role) == Some("assistant"@)))
}

/// A tool call.
pub open spec fn is_tool_call(record: Record) -> bool {
    let payload_kind = or_empty(record.payload.kind);
    payload_kind == "function_call"@ || payload_kind == "custom_tool_call"@
}

/// A tool result.
pub open spec fn is_output(record: Record) -> bool {
    let payload_kind = or_empty(record.payload.kind);
    &&& or_empty(record.kind) == "response_item"@
    &&& (payload_kind == "function_call_output"@ || payload_kind == "custom_tool_call_output"@)
}

/// A record that opens a turn.
pub open spec fn opens_turn(record: Record) -> bool {
    let kind = or_empty(record.kind);
    kind == "turn_context"@ || (kind == "event_msg"@ && or_empty(record.payload.kind) == "task_started"@)
}

/// A usage record.
pub open spec fn is_usage(record: Record) -> bool {
    or_empty(record.kind) == "token_usage_record"@
}

/// The turn a record names itself, if any.
pub open spec fn own_turn(record: Record) -> Option<String> {
    either(bounded(record.payload.turn_id, 1024), bounded(record.payload.turn_id_camel, 1024))
}

/// The identity of a generated item or result while locating the batch.
pub open spec fn link_id(record: Record) -> Option<String> {
    either(bounded(record.payload.call_id, 1024), bounded(record.payload.id, 1024))
}

/// Classification of one record by the plain strings the scan compares.
#[derive(Clone, Copy, Debug)]
pub struct Kinds {
    pub opens_turn: bool,
    pub usage: bool,
    pub generated: bool,
    pub tool_call: bool,
    pub output: bool,
    pub event: bool,
    pub item_completed: bool,
    pub compacted: bool,
    pub context: bool,
}

/// Context for a call: an incoming message.
pub open spec fn is_context(record: Record) -> bool {
    let kind = or_empty(record.kind);
    let payload_kind = or_empty(record.payload.kind);
    (kind == "response_item"@ && (payload_kind == "agent_message"@ || payload_kind == "message"@))
        || (kind == "event_msg"@ && payload_kind == "user_message"@)
}

/// The classification of a record.
#[verifier::opaque]
pub open spec fn kinds_of(record: Record) -> Kinds {
    Kinds {
        opens_turn: opens_turn(record),
        usage: is_usage(record),
        generated: is_generated(record),
        tool_call: is_tool_call(record),
        output: is_output(record),
        event: or_empty(record.kind) == "event_msg"@,
        item_completed: or_empty(record.kind) == "event_msg"@ && or_empty(record.payload.kind) == "item_completed"@,
        compacted: or_empty(record.kind) == "compacted"@,
        context: is_context(record),
    }
}

fn text_is(value: &Option<String>, expected: &str) -> (result: bool)
    ensures
        result == (or_empty(*value) == expected@),
{
    proof {
        reveal_strlit("");
    }
    match value {
        Some(v) => {
            let text: &str = v.as_str();
            let same = str_eq(text, expected);
            assert(or_empty(*value) == text@);
            assert(same == (text@ == expected@));
            same
        },
        None => {
            let same = str_eq("", expected);
            assert(""@ =~= Seq::<char>::empty());
            same
        },
    }
}

/// Classifies a record.
pub fn classify(record: &Record) -> (result: Kinds)
    ensures
        result == kinds_of(*record),
{
    reveal(kinds_of);
    let kind = &record.kind;
    let payload_kind = &record.payload.kind;
    let response_item = text_is(kind, "response_item");
    let event = text_is(kind, "event_msg");
    let assistant = match &record.payload.role {
        Some(role) => str_eq(role.as_str(), "assistant"),
        None => false,
    };
    let tool_call = text_is(payload_kind, "function_call") || text_is(payload_kind, "custom_tool_call");
    let generated = response_item && (tool_call || text_is(payload_kind, "reasoning")
        || (text_is(payload_kind, "message") && assistant));
    let output = response_item && (text_is(payload_kind, "function_call_output")
        || text_is(payload_kind, "custom_tool_call_output"));
    let context = (response_item && (text_is(payload_kind, "agent_message") || text_is(payload_kind, "message")))
        || (event && text_is(payload_kind, "user_message"));
    Kinds {
        opens_turn: text_is(kind, "turn_context") || (event && text_is(payload_kind, "task_started")),
        usage: text_is(kind, "token_usage_record"),
        generated,
        tool_call,
        output,
        event,
        item_completed: event && text_is(payload_kind, "item_completed"),
        compacted: text_is(kind, "compacted"),
        context,
    }
}

// ------------------------------------------------------------------ id sets

/// A set of identities, kept in insertion order without repeats.
#[derive(Clone, Debug)]
pub struct IdSet {
    pub items: Vec<String>,
}

/// The identities of a set.
pub open spec fn ids(set: IdSet) -> Seq<Seq<char>> {
    set.items@.map_values(|s: String| s@)
}

/// No identity occurs twice.
#[verifier::opaque]
pub open spec fn distinct(set: IdSet) -> bool {
    forall|i: int, j: int| 0 <= i < j < set.items@.len() ==> set.items@[i]@ != set.items@[j]@
}

/// Membership by text.
pub open spec fn holds_id(set: IdSet, id: Seq<char>) -> bool {
    exists|i: int| 0 <= i < set.items@.len() && #[trigger] set.items@[i]@ == id
}

/// The identities of a set, as texts.
#[verifier::opaque]
pub open spec fn members(set: IdSet) -> Set<Seq<char>> {
    Set::new(|t: Seq<char>| holds_id(set, t))
}

impl IdSet {
    /// The empty set.
    pub fn new() -> (result: IdSet)
        ensures
            result.items@.len() == 0,
            distinct(result),
            members(result) == Set::<Seq<char>>::empty(),
    {
        reveal(members);
        reveal(distinct);
        let result = IdSet { items: Vec::new() };
        assert(members(result) =~= Set::<Seq<char>>::empty());
        result
    }

    /// The number of identities.
    pub fn len(&self) -> (result: usize)
        ensures
            result == self.items@.len(),
    {
        self.items.len()
    }

    /// Whether the identity is present.
    pub fn contains(&self, id: &str) -> (result: bool)
        ensures
            result == holds_id(*self, id@),
            result == members(*self).contains(id@),
    {
        reveal(members);
        let mut i: usize = 0;
        while i < self.items.len()
            invariant
                0 <= i <= self.items@.len(),
                forall|j: int| 0 <= j < i ==> self.items@[j]@ != id@,
            decreases self.items@.len() - i,
        {
            if str_eq(self.items[i].as_str(), id) {
                reveal(members);
                assert(self.items@[i as int]@ == id@);
                return true;
            }
            i = i + 1;
        }
        false
    }

    /// Adds the identity unless present; true when it was added.
    pub fn insert(&mut self, id: String) -> (result: bool)
        requires
            distinct(*old(self)),
        ensures
            distinct(*final(self)),
            result == !holds_id(*old(self), id@),
            result == !members(*old(self)).contains(id@),
            result ==> final(self).items@ == old(self).items@.push(id),
            !result ==> final(self).items@ == old(self).items@,
            members(*final(self)) == members(*old(self)).insert(id@),
    {
        reveal(members);
        reveal(distinct);
        let ghost text = id@;
        if self.contains(id.as_str()) {
            assert(members(*self) =~= members(*self).insert(text));
            return false;
        }
        let ghost before = *self;
        self.items.push(id);
        assert forall|t: Seq<char>| holds_id(*self, t) <==> (holds_id(before, t) || t == text) by {
            if holds_id(*self, t) {
                let k = choose|k: int| 0 <= k < self.items@.len() && #[trigger] self.items@[k]@ == t;
                if k < before.items@.len() {
                    assert(before.items@[k]@ == t);
                }
            }
            if holds_id(before, t) {
                let k = choose|k: int| 0 <= k < before.items@.len() && #[trigger] before.items@[k]@ == t;
                assert(self.items@[k]@ == t);
            }
            if t == text {
                assert(self.items@[self.items@.len() - 1]@ == t);
            }
        }
        assert(members(*self) =~= members(before).insert(text));
        true
    }

    /// Removes the identity if present.
    pub fn remove(&mut self, id: &str)
        requires
            distinct(*old(self)),
        ensures
            distinct(*final(self)),
            forall|t: Seq<char>| holds_id(*final(self), t) <==> (holds_id(*old(self), t) && t != id@),
            members(*final(self)) == members(*old(self)).remove(id@),
            final(self).items@.len() == if holds_id(*old(self), id@) { old(self).items@.len() - 1 } else { old(self).items@.len() as int },
            holds_id(*old(self), id@) == members(*old(self)).contains(id@),
    {
        reveal(members);
        reveal(distinct);
        let mut i: usize = 0;
        while i < self.items.len()
            invariant
                0 <= i <= self.items@.len(),
                self.items@ == old(self).items@,
                distinct(*self),
                forall|j: int| 0 <= j < i ==> self.items@[j]@ != id@,
            decreases self.items@.len() - i,
        {
            if str_eq(self.items[i].as_str(), id) {
                reveal(members);
                reveal(distinct);
                let ghost before = self.items@;
                self.items.remove(i);
                assert forall|t: Seq<char>| holds_id(*self, t) <==> (holds_id(*old(self), t) && t != id@) by {
                    if holds_id(*self, t) {
                        let k = choose|k: int| 0 <= k < self.items@.len() && #[trigger] self.items@[k]@ == t;
                        if k < i {
                            assert(before[k]@ == t);
                        } else {
                            assert(before[k + 1]@ == t);
                        }
                    }
                    if holds_id(*old(self), t) && t != id@ {
                        let k = choose|k: int| 0 <= k < before.len() && #[trigger] before[k]@ == t;
                        if k < i {
                            assert(self.items@[k]@ == t);
                        } else {
                            assert(k != i);
                            assert(self.items@[k - 1]@ == t);
                        }
                    }
                }
                assert(holds_id(*old(self), id@)) by {
                    assert(before[i as int]@ == id@);
                }
                assert(members(*self) =~= members(*old(self)).remove(id@));
                return;
            }
            i = i + 1;
        }
        assert(members(*self) =~= members(*old(self)).remove(id@));
    }

    /// Removes every identity.
    pub fn clear(&mut self)
        ensures
            final(self).items@.len() == 0,
            distinct(*final(self)),
            members(*final(self)) == Set::<Seq<char>>::empty(),
    {
        reveal(members);
        reveal(distinct);
        self.items = Vec::new();
        assert(members(*self) =~= Set::<Seq<char>>::empty());
    }

    /// The only identity of a one-element set.
    pub fn only(&self) -> (result: Option<String>)
        ensures
            self.items@.len() == 1 ==> result == Some(self.items@[0])
                && members(*self) == Set::<Seq<char>>::empty().insert(self.items@[0]@),
    {
        reveal(members);
        if self.items.len() == 1 {
            assert(members(*self) =~= Set::<Seq<char>>::empty().insert(self.items@[0]@));
        }
        if self.items.len() == 1 {
            Some(self.items[0].clone())
        } else {
            None
        }
    }
}

// ------------------------------------------------------------------ notices

pub const MALFORMED: &'static str = "Malformed records were skipped; activity coverage is incomplete";
pub const MULTIPLE_PHASES: &'static str = "Multiple generation phases share a usage boundary; their activity is unassigned";
pub const OPENING_UNKNOWN: &'static str = "Opening call boundary is unavailable; activity is not assigned with certainty";
pub const OVERSIZED: &'static str = "Oversized log records were skipped";
pub const UNTIMED: &'static str = "Some related activity has no timestamp and cannot be assigned to the selection";
pub const HIDDEN: &'static str = "Some related activity is outside the selected interval and is hidden";
pub const INCOMPLETE_TAIL: &'static str = "The last log record is incomplete";
pub const LINK_BUDGET: &'static str = "This call exceeds the activity-link budget; remaining items are unassigned";

/// The notices a scan has raised.
#[derive(Clone, Copy, Debug, PartialEq, Eq, Structural)]
pub struct Notices {
    pub malformed: bool,
    pub multiple_phases: bool,
    pub opening_unknown: bool,
    pub oversized: bool,
    pub untimed: bool,
    pub hidden: bool,
    pub incomplete_tail: bool,
    pub link_budget: bool,
}

/// A notice's text when it was raised.
pub open spec fn raised(flag: bool, text: &'static str) -> Seq<&'static str> {
    if flag { seq![text] } else { Seq::empty() }
}

/// The raised notices in ascending text order.
pub open spec fn notice_texts(n: Notices) -> Seq<&'static str> {
    raised(n.malformed, MALFORMED) + raised(n.multiple_phases, MULTIPLE_PHASES)
        + raised(n.opening_unknown, OPENING_UNKNOWN) + raised(n.oversized, OVERSIZED)
        + raised(n.untimed, UNTIMED) + raised(n.hidden, HIDDEN)
        + raised(n.incomplete_tail, INCOMPLETE_TAIL) + raised(n.link_budget, LINK_BUDGET)
}

fn push_raised(texts: &mut Vec<&'static str>, flag: bool, text: &'static str)
    ensures
        final(texts)@ == old(texts)@ + raised(flag, text),
{
    if flag {
        texts.push(text);
    }
    assert(final(texts)@ =~= old(texts)@ + raised(flag, text));
}

impl Notices {
    /// No notice raised.
    pub open spec fn none_spec() -> Notices {
        Notices {
            malformed: false,
            multiple_phases: false,
            opening_unknown: false,
            oversized: false,
            untimed: false,
            hidden: false,
            incomplete_tail: false,
            link_budget: false,
        }
    }

    /// No notice raised.
    pub fn none() -> (result: Notices)
        ensures
            result == (Notices {
                malformed: false,
                multiple_phases: false,
                opening_unknown: false,
                oversized: false,
                untimed: false,
                hidden: false,
                incomplete_tail: false,
                link_budget: false,
            }),
    {
        Notices {
            malformed: false,
            multiple_phases: false,
            opening_unknown: false,
            oversized: false,
            untimed: false,
            hidden: false,
            incomplete_tail: false,
            link_budget: false,
        }
    }

    /// Whether no notice was raised.
    pub fn is_empty(&self) -> (result: bool)
        ensures
            result == !(self.malformed || self.multiple_phases || self.opening_unknown || self.oversized
                || self.untimed || self.hidden || self.incomplete_tail || self.link_budget),
    {
        !(self.malformed || self.multiple_phases || self.opening_unknown || self.oversized || self.untimed
            || self.hidden || self.incomplete_tail || self.link_budget)
    }

    /// The raised notices, in ascending text order.
    pub fn texts(&self) -> (result: Vec<&'static str>)
        ensures
            result@ == notice_texts(*self),
    {
        let mut result: Vec<&'static str> = Vec::new();
        push_raised(&mut result, self.malformed, MALFORMED);
        assert(result@ =~= raised(self.malformed, MALFORMED));
        push_raised(&mut result, self.multiple_phases, MULTIPLE_PHASES);
        push_raised(&mut result, self.opening_unknown, OPENING_UNKNOWN);
        push_raised(&mut result, self.oversized, OVERSIZED);
        push_raised(&mut result, self.untimed, UNTIMED);
        push_raised(&mut result, self.hidden, HIDDEN);
        push_raised(&mut result, self.incomplete_tail, INCOMPLETE_TAIL);
        push_raised(&mut result, self.link_budget, LINK_BUDGET);
        result
    }
}

// ------------------------------------------------------------------ inferred paths

/// Unicode `White_Space`, as `char::is_whitespace` documents it.
pub open spec fn white_space(c: char) -> bool {
    ('\u{9}' <= c <= '\u{d}') || c == ' ' || c == '\u{85}' || c == '\u{a0}' || c == '\u{1680}'
        || ('\u{2000}' <= c <= '\u{200a}') || c == '\u{2028}' || c == '\u{2029}' || c == '\u{202f}'
        || c == '\u{205f}' || c == '\u{3000}'
}

pub(crate) fn is_white_space(c: char) -> (result: bool)
    ensures
        result == white_space(c),
{
    ('\u{9}' <= c && c <= '\u{d}') || c == ' ' || c == '\u{85}' || c == '\u{a0}' || c == '\u{1680}'
        || ('\u{2000}' <= c && c <= '\u{200a}') || c == '\u{2028}' || c == '\u{2029}' || c == '\u{202f}'
        || c == '\u{205f}' || c == '\u{3000}'
}

/// Completed words and the word in progress after reading `text`.
pub open spec fn word_scan(text: Seq<char>) -> (Seq<Seq<char>>, Seq<char>)
    decreases text.len(),
{
    if text.len() == 0 {
        (Seq::empty(), Seq::empty())
    } else {
        let (done, current) = word_scan(text.drop_last());
        let c = text.last();
        if white_space(c) {
            if current.len() > 0 { (done.push(current), Seq::empty()) } else { (done, current) }
        } else {
            (done, current.push(c))
        }
    }
}

/// The maximal runs of non-whitespace characters, in order.
pub open spec fn words(text: Seq<char>) -> Seq<Seq<char>> {
    let (done, current) = word_scan(text);
    if current.len() > 0 { done.push(current) } else { done }
}

/// Characters trimmed from both ends of a command argument.
pub open spec fn trimmed_char(c: char) -> bool {
    c == '\'' || c == '"' || c == ',' || c == ';' || c == '(' || c == ')'
}

/// A word without leading trimmed characters.
pub open spec fn trim_front(w: Seq<char>) -> Seq<char>
    decreases w.len(),
{
    if w.len() > 0 && trimmed_char(w[0]) { trim_front(w.drop_first()) } else { w }
}

/// A word without trailing trimmed characters.
pub open spec fn trim_back(w: Seq<char>) -> Seq<char>
    decreases w.len(),
{
    if w.len() > 0 && trimmed_char(w.last()) { trim_back(w.drop_last()) } else { w }
}

/// Whether `needle` occurs in `w`.
pub open spec fn occurs(w: Seq<char>, needle: Seq<char>) -> bool {
    exists|i: int| 0 <= i && i + needle.len() <= w.len() && #[trigger] w.subrange(i, i + needle.len()) == needle
}

/// A path-shaped argument: under 512 bytes, no URL scheme, a slash or backslash,
/// and not an option.
pub open spec fn path_shaped(w: Seq<char>) -> bool {
    &&& byte_len(w) < 512
    &&& !occurs(w, "://"@)
    &&& (w.contains('/') || w.contains('\\'))
    &&& !(w.len() > 0 && w[0] == '-')
}

/// The path-shaped arguments among words, in order.
pub open spec fn path_words(ws: Seq<Seq<char>>) -> Seq<Seq<char>>
    decreases ws.len(),
{
    if ws.len() == 0 {
        Seq::empty()
    } else {
        let rest = path_words(ws.drop_last());
        let w = trim_back(trim_front(ws.last()));
        if path_shaped(w) { rest.push(w) } else { rest }
    }
}

/// The first thirty path-shaped arguments of a command: intent, not an audit of
/// the files a command touched.
pub open spec fn inferred_paths_of(command: Seq<char>) -> Seq<Seq<char>> {
    let all = path_words(words(command));
    if all.len() <= 30 { all } else { all.take(30) }
}

/// The texts of a vector of strings.
pub open spec fn texts_of(v: Seq<String>) -> Seq<Seq<char>> {
    v.map_values(|s: String| s@)
}

fn word_list(text: &str) -> (result: Vec<Vec<char>>)
    ensures
        result@.map_values(|w: Vec<char>| w@) == words(text@),
{
    let chars = chars_of(text);
    let mut done: Vec<Vec<char>> = Vec::new();
    let mut current: Vec<char> = Vec::new();
    let mut i: usize = 0;
    while i < chars.len()
        invariant
            0 <= i <= chars@.len(),
            chars@ == text@,
            (done@.map_values(|w: Vec<char>| w@), current@) == word_scan(text@.take(i as int)),
        decreases chars@.len() - i,
    {
        let c = chars[i];
        assert(text@.take(i + 1).drop_last() =~= text@.take(i as int));
        let ghost before = done@.map_values(|w: Vec<char>| w@);
        if is_white_space(c) {
            if current.len() > 0 {
                let word = current;
                current = Vec::new();
                done.push(word);
                assert(done@.map_values(|w: Vec<char>| w@) =~= before.push(word@));
            }
        } else {
            current.push(c);
        }
        i = i + 1;
    }
    assert(text@.take(chars@.len() as int) =~= text@);
    if current.len() > 0 {
        let ghost before = done@.map_values(|w: Vec<char>| w@);
        let word = current;
        done.push(word);
        assert(done@.map_values(|w: Vec<char>| w@) =~= before.push(word@));
    }
    done
}

fn trim_word(w: &Vec<char>) -> (result: Vec<char>)
    ensures
        result@ == trim_back(trim_front(w@)),
{
    let mut start: usize = 0;
    assert(w@.subrange(0, w@.len() as int) =~= w@);
    while start < w.len() && (w[start] == '\'' || w[start] == '"' || w[start] == ',' || w[start] == ';'
        || w[start] == '(' || w[start] == ')')
        invariant
            0 <= start <= w@.len(),
            trim_front(w@) == trim_front(w@.subrange(start as int, w@.len() as int)),
        decreases w@.len() - start,
    {
        assert(w@.subrange(start as int, w@.len() as int).drop_first() =~= w@.subrange(start + 1, w@.len() as int));
        start = start + 1;
    }
    let ghost front = w@.subrange(start as int, w@.len() as int);
    assert(trim_front(front) == front);
    let mut end: usize = w.len();
    while end > start && (w[end - 1] == '\'' || w[end - 1] == '"' || w[end - 1] == ',' || w[end - 1] == ';'
        || w[end - 1] == '(' || w[end - 1] == ')')
        invariant
            start <= end <= w@.len(),
            trim_front(w@) == front,
            front == w@.subrange(start as int, w@.len() as int),
            trim_back(front) == trim_back(w@.subrange(start as int, end as int)),
        decreases end - start,
    {
        assert(w@.subrange(start as int, end as int).drop_last() =~= w@.subrange(start as int, end - 1));
        end = end - 1;
    }
    let ghost kept = w@.subrange(start as int, end as int);
    assert(trim_back(kept) == kept);
    let mut result: Vec<char> = Vec::new();
    let mut k: usize = start;
    while k < end
        invariant
            start <= k <= end,
            end <= w@.len(),
            result@ == w@.subrange(start as int, k as int),
        decreases end - k,
    {
        result.push(w[k]);
        assert(result@ =~= w@.subrange(start as int, k + 1));
        k = k + 1;
    }
    result
}

fn string_of(chars: &Vec<char>) -> (result: String)
    ensures
        result@ == chars@,
{
    let mut text = String::new();
    let mut i: usize = 0;
    while i < chars.len()
        invariant
            0 <= i <= chars@.len(),
            text@ == chars@.take(i as int),
        decreases chars@.len() - i,
    {
        push_char(&mut text, chars[i]);
        assert(text@ =~= chars@.take(i + 1));
        i = i + 1;
    }
    assert(chars@.take(chars@.len() as int) =~= chars@);
    text
}

fn has_scheme(w: &Vec<char>) -> (result: bool)
    ensures
        result == occurs(w@, "://"@),
{
    let ghost scheme = seq![':', '/', '/'];
    proof {
        reveal_strlit("://");
        assert("://"@ =~= scheme);
    }
    if w.len() < 3 {
        return false;
    }
    let mut i: usize = 0;
    while i < w.len() - 2
        invariant
            w@.len() >= 3,
            0 <= i <= w@.len() - 2,
            "://"@ == scheme,
            scheme == seq![':', '/', '/'],
            forall|j: int| 0 <= j < i ==> #[trigger] w@.subrange(j, j + 3) != scheme,
        decreases w@.len() - i,
    {
        if w[i] == ':' && w[i + 1] == '/' && w[i + 2] == '/' {
            assert(w@.subrange(i as int, i + 3) =~= scheme);
            return true;
        }
        assert(w@.subrange(i as int, i + 3) != scheme) by {
            if w@.subrange(i as int, i + 3) == scheme {
                assert(w@.subrange(i as int, i + 3)[0] == w@[i as int]);
                assert(w@.subrange(i as int, i + 3)[1] == w@[i + 1]);
                assert(w@.subrange(i as int, i + 3)[2] == w@[i + 2]);
            }
        }
        i = i + 1;
    }
    false
}

fn contains_char(w: &Vec<char>, c: char) -> (result: bool)
    ensures
        result == w@.contains(c),
{
    let mut i: usize = 0;
    while i < w.len()
        invariant
            0 <= i <= w@.len(),
            forall|j: int| 0 <= j < i ==> w@[j] != c,
        decreases w@.len() - i,
    {
        if w[i] == c {
            return true;
        }
        i = i + 1;
    }
    false
}

/// The explicit path-shaped arguments of a command, at most thirty. A logged
/// command is never executed.
pub fn inferred_paths(command: &str) -> (result: Vec<String>)
    ensures
        texts_of(result@) == inferred_paths_of(command@),
{
    let ws = word_list(command);
    let ghost all_words = words(command@);
    let mut result: Vec<String> = Vec::new();
    let mut i: usize = 0;
    while i < ws.len() && result.len() < 30
        invariant
            0 <= i <= ws@.len(),
            ws@.map_values(|w: Vec<char>| w@) == all_words,
            ({
                let found = path_words(all_words.take(i as int));
                &&& found.len() <= 30 ==> texts_of(result@) == found
                &&& found.len() > 30 ==> texts_of(result@) == found.take(30)
            }),
            result@.len() <= 30,
        decreases ws@.len() - i,
    {
        assert(all_words.take(i + 1).drop_last() =~= all_words.take(i as int));
        assert(all_words.take(i + 1).last() == ws@[i as int]@);
        let w = trim_word(&ws[i]);
        let text = string_of(&w);
        let shaped = text.as_str().len() < 512 && !has_scheme(&w) && (contains_char(&w, '/') || contains_char(&w, '\\'))
            && !(w.len() > 0 && w[0] == '-');
        let ghost before = texts_of(result@);
        if shaped {
            result.push(text);
            assert(texts_of(result@) =~= before.push(w@));
        }
        i = i + 1;
    }
    proof {
        lemma_path_words_prefix(all_words, i as int, ws@.len() as int);
        assert(all_words.take(ws@.len() as int) =~= all_words);
        let found = path_words(all_words.take(i as int));
        let full = path_words(all_words);
        if i < ws@.len() {
            assert(found.len() >= 30);
            assert(full.take(30) =~= found.take(30)) by {
                assert(full.take(found.len() as int) == found);
            }
        }
    }
    result
}

proof fn lemma_path_words_prefix(ws: Seq<Seq<char>>, i: int, j: int)
    requires
        0 <= i <= j <= ws.len(),
    ensures
        path_words(ws.take(j)).len() >= path_words(ws.take(i)).len(),
        path_words(ws.take(j)).take(path_words(ws.take(i)).len() as int) == path_words(ws.take(i)),
    decreases j - i,
{
    if i == j {
        assert(path_words(ws.take(j)).take(path_words(ws.take(i)).len() as int) =~= path_words(ws.take(i)));
    } else {
        lemma_path_words_prefix(ws, i, j - 1);
        assert(ws.take(j).drop_last() =~= ws.take(j - 1));
        let shorter = path_words(ws.take(j - 1));
        let k = path_words(ws.take(i)).len() as int;
        assert(shorter.take(k) == path_words(ws.take(i)));
        let longer = path_words(ws.take(j));
        if longer.len() > shorter.len() {
            assert(longer.take(k) =~= shorter.take(k));
        }
    }
}

// ------------------------------------------------------------------ scan state

/// The accepted usage record a scan is anchored at: its offset in the source, the
/// source's size when the anchor was made, and the record's turn and response.
#[derive(Clone, Debug)]
pub struct AnchorFacts {
    pub offset: u64,
    pub size: u64,
    pub turn_id: Option<String>,
    pub response_id: Option<String>,
}

/// The decision state of one activity scan.
#[derive(Clone, Debug)]
pub struct Scan {
    pub window: Window,
    pub anchor: AnchorFacts,
    pub offset: u64,
    pub tail: Vec<u8>,
    pub tail_start: u64,
    pub discarding: bool,
    pub locating: bool,
    pub finished: bool,
    pub next_usage: bool,
    pub batch_start: u64,
    pub batch_turn: Option<String>,
    pub turn: Option<String>,
    pub opening_known: bool,
    pub output_seen: bool,
    pub ambiguous: bool,
    pub generated: IdSet,
    pub open_tools: IdSet,
    pub other_tools: IdSet,
    pub seen: IdSet,
    pub excluded: bool,
    pub notices: Notices,
}

/// A scan as values: texts by their characters, identity sets as sets with sizes.
pub struct ScanModel {
    pub window: Window,
    pub anchor_offset: u64,
    pub anchor_size: u64,
    pub anchor_turn: Option<Seq<char>>,
    pub anchor_response: Option<Seq<char>>,
    pub offset: u64,
    pub tail: Seq<u8>,
    pub tail_start: u64,
    pub discarding: bool,
    pub locating: bool,
    pub finished: bool,
    pub next_usage: bool,
    pub batch_start: u64,
    pub batch_turn: Option<Seq<char>>,
    pub turn: Option<Seq<char>>,
    pub opening_known: bool,
    pub output_seen: bool,
    pub ambiguous: bool,
    pub generated: Set<Seq<char>>,
    pub generated_count: nat,
    pub open_tools: Set<Seq<char>>,
    pub open_count: nat,
    pub other_tools: Set<Seq<char>>,
    pub other_count: nat,
    pub seen: Set<Seq<char>>,
    pub seen_count: nat,
    pub excluded: bool,
    pub notices: Notices,
}

impl View for Scan {
    type V = ScanModel;

    open spec fn view(&self) -> ScanModel {
        ScanModel {
            window: self.window,
            anchor_offset: self.anchor.offset,
            anchor_size: self.anchor.size,
            anchor_turn: opt_view(self.anchor.turn_id),
            anchor_response: opt_view(self.anchor.response_id),
            offset: self.offset,
            tail: self.tail@,
            tail_start: self.tail_start,
            discarding: self.discarding,
            locating: self.locating,
            finished: self.finished,
            next_usage: self.next_usage,
            batch_start: self.batch_start,
            batch_turn: opt_view(self.batch_turn),
            turn: opt_view(self.turn),
            opening_known: self.opening_known,
            output_seen: self.output_seen,
            ambiguous: self.ambiguous,
            generated: members(self.generated),
            generated_count: self.generated.items@.len(),
            open_tools: members(self.open_tools),
            open_count: self.open_tools.items@.len(),
            other_tools: members(self.other_tools),
            other_count: self.other_tools.items@.len(),
            seen: members(self.seen),
            seen_count: self.seen.items@.len(),
            excluded: self.excluded,
            notices: self.notices,
        }
    }
}

/// Every identity set of the scan is free of repeats.
pub open spec fn well_formed(scan: Scan) -> bool {
    &&& distinct(scan.generated)
    &&& distinct(scan.open_tools)
    &&& distinct(scan.other_tools)
    &&& distinct(scan.seen)
}

/// The way activity is tied to the invocation while no stronger link exists.
pub open spec fn association_of(m: ScanModel) -> &'static str {
    if m.ambiguous || !m.opening_known { "ambiguous" } else { "logOrder" }
}

impl Scan {
    /// A scan that starts locating the batch of its anchor from the source's start.
    pub fn new(window: Window, anchor: AnchorFacts) -> (result: Scan)
        ensures
            well_formed(result),
            result.window == window,
            result.anchor == anchor,
            result@.offset == 0 && result@.tail.len() == 0 && result@.tail_start == 0,
            !result@.discarding && result@.locating && !result@.finished && !result@.next_usage,
            result@.batch_start == 0 && result@.batch_turn is None && result@.turn is None,
            !result@.opening_known && !result@.output_seen && !result@.ambiguous && !result@.excluded,
            result@.generated_count == 0 && result@.open_count == 0 && result@.other_count == 0 && result@.seen_count == 0,
            result@.generated.is_empty() && result@.open_tools.is_empty() && result@.other_tools.is_empty() && result@.seen.is_empty(),
            result.notices == Notices::none_spec(),
    {
        Scan {
            window,
            anchor,
            offset: 0,
            tail: Vec::new(),
            tail_start: 0,
            discarding: false,
            locating: true,
            finished: false,
            next_usage: false,
            batch_start: 0,
            batch_turn: None,
            turn: None,
            opening_known: false,
            output_seen: false,
            ambiguous: false,
            generated: IdSet::new(),
            open_tools: IdSet::new(),
            other_tools: IdSet::new(),
            seen: IdSet::new(),
            excluded: false,
            notices: Notices::none(),
        }
    }

    /// How activity is tied to the invocation: `logOrder` once the opening call
    /// boundary is known and unambiguous, `ambiguous` otherwise.
    pub fn association(&self) -> (result: &'static str)
        ensures
            result == association_of(self@),
    {
        if self.ambiguous || !self.opening_known { "ambiguous" } else { "logOrder" }
    }
}

// ------------------------------------------------------------------ locating

/// The scan after a record that opens a turn: the turn it names becomes current,
/// and while locating, the first such record starts the batch.
pub open spec fn opened(m: ScanModel, r: Record, offset: u64) -> ScanModel {
    if opens_turn(r) {
        let turn = opt_view(bounded(r.payload.turn_id, 1024));
        if m.locating && m.batch_start == 0 {
            ScanModel {
                turn,
                batch_start: offset,
                batch_turn: turn,
                opening_known: turn is Some && turn == m.anchor_turn,
                ..m
            }
        } else {
            ScanModel { turn, ..m }
        }
    } else {
        m
    }
}

/// The record belongs to the anchor's turn: the turn it names, or the current turn.
pub open spec fn same_turn(m: ScanModel, r: Record) -> bool {
    (match opt_view(own_turn(r)) {
        Some(t) => Some(t),
        None => m.turn,
    }) == m.anchor_turn
}

/// The scan after a record read while locating the anchor's batch.
pub open spec fn located(m: ScanModel, r: Record, offset: u64, length: u64) -> ScanModel {
    let k = kinds_of(r);
    let same = same_turn(m, r);
    if offset == m.anchor_offset {
        ScanModel {
            locating: false,
            offset: m.batch_start,
            tail: Seq::empty(),
            turn: m.batch_turn,
            generated: Set::empty(),
            generated_count: 0,
            notices: Notices {
                opening_unknown: m.notices.opening_unknown || !m.opening_known,
                multiple_phases: m.notices.multiple_phases || m.ambiguous,
                ..m.notices
            },
            ..m
        }
    } else if k.usage {
        ScanModel {
            batch_start: (offset + length) as u64,
            batch_turn: m.turn,
            opening_known: same,
            output_seen: false,
            ambiguous: false,
            generated: Set::empty(),
            generated_count: 0,
            ..m
        }
    } else if same {
        let id = opt_view(link_id(r));
        let adds = k.generated && m.generated_count < MAX_LINKS && id is Some;
        ScanModel {
            ambiguous: m.ambiguous || (k.generated && m.output_seen),
            output_seen: m.output_seen || (k.output && id is Some && m.generated.contains(id.unwrap())),
            generated: if adds { m.generated.insert(id.unwrap()) } else { m.generated },
            generated_count: if adds && !m.generated.contains(id.unwrap()) {
                m.generated_count + 1
            } else {
                m.generated_count
            },
            ..m
        }
    } else {
        m
    }
}

fn batch_link(record: &Record) -> (result: Option<String>)
    ensures
        result == link_id(*record),
{
    match bounded_text(&record.payload.call_id, 1024) {
        Some(t) => Some(t),
        None => bounded_text(&record.payload.id, 1024),
    }
}

fn same_text(a: &Option<String>, b: &Option<String>) -> (result: bool)
    ensures
        result == (opt_view(*a) == opt_view(*b)),
{
    match (a, b) {
        (Some(x), Some(y)) => str_eq(x.as_str(), y.as_str()),
        (None, None) => true,
        _ => false,
    }
}

impl Scan {
    fn open_turn(&mut self, record: &Record, kinds: &Kinds, offset: u64)
        requires
            *kinds == kinds_of(*record),
        ensures
            final(self)@ == opened(old(self)@, *record, offset),
            final(self).generated == old(self).generated,
            final(self).open_tools == old(self).open_tools,
            final(self).other_tools == old(self).other_tools,
            final(self).seen == old(self).seen,
            final(self).window == old(self).window,
            final(self).anchor == old(self).anchor,
    {
        reveal(kinds_of);
        if kinds.opens_turn {
            self.turn = bounded_text(&record.payload.turn_id, 1024);
            if self.locating && self.batch_start == 0 {
                self.batch_start = offset;
                self.batch_turn = match &self.turn {
                    Some(t) => Some(t.clone()),
                    None => None,
                };
                self.opening_known = self.turn.is_some() && same_text(&self.turn, &self.anchor.turn_id);
            }
        }
    }

    fn in_anchor_turn(&self, record: &Record) -> (result: bool)
        ensures
            result == same_turn(self@, *record),
    {
        let own = match bounded_text(&record.payload.turn_id, 1024) {
            Some(t) => Some(t),
            None => bounded_text(&record.payload.turn_id_camel, 1024),
        };
        match own {
            Some(t) => match &self.anchor.turn_id {
                Some(a) => str_eq(t.as_str(), a.as_str()),
                None => false,
            },
            None => same_text(&self.turn, &self.anchor.turn_id),
        }
    }

    fn reach_anchor(&mut self)
        requires
            well_formed(*old(self)),
        ensures
            well_formed(*final(self)),
            final(self)@ == (ScanModel {
                locating: false,
                offset: old(self)@.batch_start,
                tail: Seq::empty(),
                turn: old(self)@.batch_turn,
                generated: Set::empty(),
                generated_count: 0,
                notices: Notices {
                    opening_unknown: old(self)@.notices.opening_unknown || !old(self)@.opening_known,
                    multiple_phases: old(self)@.notices.multiple_phases || old(self)@.ambiguous,
                    ..old(self)@.notices
                },
                ..old(self)@
            }),
            final(self).open_tools == old(self).open_tools,
            final(self).other_tools == old(self).other_tools,
            final(self).seen == old(self).seen,
            final(self).window == old(self).window,
            final(self).anchor == old(self).anchor,
    {
        self.locating = false;
        self.offset = self.batch_start;
        self.tail = Vec::new();
        self.turn = match &self.batch_turn {
            Some(t) => Some(t.clone()),
            None => None,
        };
        self.generated.clear();
        if !self.opening_known {
            self.notices.opening_unknown = true;
        }
        if self.ambiguous {
            self.notices.multiple_phases = true;
        }
        assert(self.tail@ =~= Seq::<u8>::empty());
    }

    fn restart_batch(&mut self, same: bool, next: u64)
        requires
            well_formed(*old(self)),
        ensures
            well_formed(*final(self)),
            final(self)@ == (ScanModel {
                batch_start: next,
                batch_turn: old(self)@.turn,
                opening_known: same,
                output_seen: false,
                ambiguous: false,
                generated: Set::empty(),
                generated_count: 0,
                ..old(self)@
            }),
            final(self).open_tools == old(self).open_tools,
            final(self).other_tools == old(self).other_tools,
            final(self).seen == old(self).seen,
            final(self).window == old(self).window,
            final(self).anchor == old(self).anchor,
    {
        self.batch_start = next;
        self.batch_turn = match &self.turn {
            Some(t) => Some(t.clone()),
            None => None,
        };
        self.opening_known = same;
        self.output_seen = false;
        self.ambiguous = false;
        self.generated.clear();
    }

    fn note_generated(&mut self, id: Option<String>)
        requires
            well_formed(*old(self)),
        ensures
            well_formed(*final(self)),
            ({
                let m = old(self)@;
                let v = opt_view(id);
                let adds = m.generated_count < MAX_LINKS && v is Some;
                final(self)@ == ScanModel {
                    generated: if adds { m.generated.insert(v.unwrap()) } else { m.generated },
                    generated_count: if adds && !m.generated.contains(v.unwrap()) {
                        m.generated_count + 1
                    } else {
                        m.generated_count
                    },
                    ..m
                }
            }),
            final(self).open_tools == old(self).open_tools,
            final(self).other_tools == old(self).other_tools,
            final(self).seen == old(self).seen,
            final(self).window == old(self).window,
            final(self).anchor == old(self).anchor,
    {
        if self.generated.len() < MAX_LINKS {
            if let Some(i) = id {
                self.generated.insert(i);
            }
        }
    }

    fn note_batch_item(&mut self, record: &Record, kinds: &Kinds)
        requires
            well_formed(*old(self)),
            *kinds == kinds_of(*record),
        ensures
            well_formed(*final(self)),
            ({
                let m = old(self)@;
                let id = opt_view(link_id(*record));
                let adds = kinds.generated && m.generated_count < MAX_LINKS && id is Some;
                final(self)@ == ScanModel {
                    ambiguous: m.ambiguous || (kinds.generated && m.output_seen),
                    output_seen: m.output_seen || (kinds.output && id is Some && m.generated.contains(id.unwrap())),
                    generated: if adds { m.generated.insert(id.unwrap()) } else { m.generated },
                    generated_count: if adds && !m.generated.contains(id.unwrap()) {
                        m.generated_count + 1
                    } else {
                        m.generated_count
                    },
                    ..m
                }
            }),
            final(self).open_tools == old(self).open_tools,
            final(self).other_tools == old(self).other_tools,
            final(self).seen == old(self).seen,
            final(self).window == old(self).window,
            final(self).anchor == old(self).anchor,
    {
        let id = batch_link(record);
        let seen = kinds.output && match &id {
            Some(i) => self.generated.contains(i.as_str()),
            None => false,
        };
        self.ambiguous = self.ambiguous || (kinds.generated && self.output_seen);
        self.output_seen = self.output_seen || seen;
        if kinds.generated {
            self.note_generated(id);
        }
    }

    fn locate(&mut self, record: &Record, kinds: &Kinds, same: bool, offset: u64, length: u64)
        requires
            well_formed(*old(self)),
            *kinds == kinds_of(*record),
            same == same_turn(old(self)@, *record),
            offset + length <= u64::MAX,
        ensures
            well_formed(*final(self)),
            final(self)@ == located(old(self)@, *record, offset, length),
            final(self).open_tools == old(self).open_tools,
            final(self).other_tools == old(self).other_tools,
            final(self).seen == old(self).seen,
            final(self).window == old(self).window,
            final(self).anchor == old(self).anchor,
    {
        if offset == self.anchor.offset {
            self.reach_anchor();
        } else if kinds.usage {
            self.restart_batch(same, offset + length);
        } else if same {
            self.note_batch_item(record, kinds);
        }
    }
}

// ------------------------------------------------------------------ following the batch

/// How a record's activity is tied to the invocation, if at all.
#[derive(Clone, Copy, Debug, PartialEq, Eq, Structural)]
pub enum Link {
    Generated,
    Result,
    Completion,
    Compaction,
    Context,
    Skip,
}

/// A displayed field of an event: its label, the first characters of its text,
/// and where in the record the full text lives.
#[derive(Clone, Debug)]
pub struct FieldDraft {
    pub label: &'static str,
    pub preview: String,
    pub pointer: String,
}

/// An activity event as the scan decides it; the caller attaches text handles.
#[derive(Clone, Debug)]
pub struct Draft {
    pub id: String,
    pub time: Time,
    pub kind: String,
    pub label: String,
    pub association: &'static str,
    pub parent_id: Option<String>,
    pub fields: Vec<FieldDraft>,
    pub status: Option<String>,
    pub paths: Vec<String>,
    pub paths_inferred: bool,
}

/// The identity of a record: its call id, its item's id, or its offset.
pub open spec fn record_id(r: Record, offset: u64) -> Seq<char> {
    match opt_view(either(bounded(r.payload.call_id, 1024), bounded(item_of(r).id, 1024))) {
        Some(t) => t,
        None => "record-"@ + decimal(offset as int),
    }
}

/// A set with one more identity, and its size.
pub open spec fn with_id(set: Set<Seq<char>>, count: nat, id: Seq<char>) -> (Set<Seq<char>>, nat) {
    (set.insert(id), if set.contains(id) { count } else { count + 1 })
}

/// A set without an identity, and its size.
pub open spec fn without_id(set: Set<Seq<char>>, count: nat, id: Seq<char>) -> (Set<Seq<char>>, nat) {
    (set.remove(id), if set.contains(id) { (count - 1) as nat } else { count })
}

/// Later tool calls of the same turn are remembered until their results arrive.
pub open spec fn later_calls_noted(m: ScanModel, r: Record, offset: u64, same: bool, id: Seq<char>) -> ScanModel {
    let k = kinds_of(r);
    let adds = k.generated && offset > m.anchor_offset && same && k.tool_call && m.other_count < MAX_LINKS;
    let m1 = if adds {
        ScanModel { other_tools: with_id(m.other_tools, m.other_count, id).0, other_count: with_id(m.other_tools, m.other_count, id).1, ..m }
    } else {
        m
    };
    if k.output {
        ScanModel {
            other_tools: without_id(m1.other_tools, m1.other_count, id).0,
            other_count: without_id(m1.other_tools, m1.other_count, id).1,
            ..m1
        }
    } else {
        m1
    }
}

/// How a record's activity is tied to the invocation.
pub open spec fn link_of(m: ScanModel, r: Record, offset: u64, same: bool, id: Seq<char>) -> Link {
    let k = kinds_of(r);
    if k.generated && offset < m.anchor_offset && same {
        Link::Generated
    } else if k.output && m.generated.contains(id) {
        Link::Result
    } else if k.item_completed && same {
        Link::Completion
    } else if k.compacted && m.anchor_response is Some && opt_view(r.payload.compaction_response_id) == m.anchor_response {
        Link::Compaction
    } else if same && offset < m.anchor_offset && k.context {
        Link::Context
    } else {
        Link::Skip
    }
}

/// Completed messages and reasoning already have their own representation.
pub open spec fn message_item(kind: Seq<char>) -> bool {
    kind == "AgentMessage"@ || kind == "Reasoning"@ || kind == "agent_message"@ || kind == "reasoning"@
}

/// A completion that yields no event: a generated message or reasoning, or a
/// completion after the next usage record with no tool call open.
pub open spec fn completion_skips(m: ScanModel, r: Record, id: Seq<char>) -> bool {
    if m.generated.contains(id) {
        message_item(item_kind(r))
    } else if m.open_count == 1 && m.other_count == 0 {
        false
    } else {
        m.next_usage && m.open_count == 0
    }
}

/// A generated item is linked unless the link budget is spent.
pub open spec fn generation_noted(m: ScanModel, id: Seq<char>) -> ScanModel {
    if m.generated_count >= MAX_LINKS {
        ScanModel { notices: Notices { link_budget: true, ..m.notices }, ..m }
    } else {
        ScanModel { generated: with_id(m.generated, m.generated_count, id).0, generated_count: with_id(m.generated, m.generated_count, id).1, ..m }
    }
}

/// The scan after linking a record's activity.
pub open spec fn linked(m: ScanModel, r: Record, link: Link, id: Seq<char>) -> ScanModel {
    match link {
        Link::Generated => {
            let m1 = generation_noted(m, id);
            if kinds_of(r).tool_call {
                ScanModel { open_tools: with_id(m1.open_tools, m1.open_count, id).0, open_count: with_id(m1.open_tools, m1.open_count, id).1, ..m1 }
            } else {
                m1
            }
        },
        Link::Result => ScanModel {
            open_tools: without_id(m.open_tools, m.open_count, id).0,
            open_count: without_id(m.open_tools, m.open_count, id).1,
            ..m
        },
        _ => m,
    }
}

/// The association an event reports.
pub open spec fn link_association(m: ScanModel, link: Link, id: Seq<char>) -> &'static str {
    match link {
        Link::Generated => if m.generated_count >= MAX_LINKS { "unassigned" } else { association_of(m) },
        Link::Result => "itemId",
        Link::Completion => if m.generated.contains(id) {
            "itemId"
        } else if m.open_count == 1 && m.other_count == 0 {
            "activeBatch"
        } else {
            "unassigned"
        },
        Link::Compaction => "responseId",
        Link::Context => "context",
        Link::Skip => association_of(m),
    }
}

/// The event an event belongs to: the tool call it completes or answers.
pub open spec fn link_parent(m: ScanModel, link: Link, id: Seq<char>) -> Option<Seq<char>> {
    match link {
        Link::Result => Some(id),
        Link::Completion => if m.generated.contains(id) {
            Some(id)
        } else if m.open_count == 1 && m.other_count == 0 {
            Some(m.open_tools.choose())
        } else {
            None
        },
        _ => None,
    }
}

/// The kind of an event.
pub open spec fn event_kind(r: Record, link: Link) -> Seq<char> {
    match link {
        Link::Generated => or_empty(r.payload.kind),
        Link::Result => "toolOutput"@,
        Link::Completion => item_kind(r),
        Link::Compaction => "compaction"@,
        Link::Context => "context"@,
        Link::Skip => Seq::empty(),
    }
}

/// The label of an event.
pub open spec fn event_label(r: Record, link: Link) -> Seq<char> {
    match link {
        Link::Generated => match opt_view(bounded(r.payload.name, 1024)) {
            Some(name) => name,
            None => if or_empty(r.payload.kind) == "reasoning"@ {
                "Available reasoning summary"@
            } else if or_empty(r.payload.kind) == "message"@ {
                "Assistant message"@
            } else {
                "Tool call"@
            },
        },
        Link::Result => "Tool result"@,
        Link::Completion => {
            let k = item_kind(r);
            if k == "CommandExecution"@ {
                "Command"@
            } else if k == "FileChange"@ {
                "File changes"@
            } else if k == "ImageView"@ {
                "Viewed image"@
            } else {
                k
            }
        },
        Link::Compaction => "Context compaction"@,
        Link::Context => "Incoming message / call context"@,
        Link::Skip => Seq::empty(),
    }
}

/// Fields are read from the record's item only for completions that carry one.
pub open spec fn item_based(r: Record, link: Link) -> bool {
    link == Link::Completion && r.item is Some
}

/// Where an event's fields are read from.
pub open spec fn base_of(r: Record, link: Link) -> Seq<char> {
    if item_based(r, link) { "/payload/item"@ } else { "/payload"@ }
}

/// The labelled fields an event may show, in order.
pub open spec fn pointers_of(link: Link) -> Seq<(&'static str, &'static str)> {
    match link {
        Link::Generated => seq![("Arguments", "arguments"), ("Input", "input"), ("Text", "content"), ("Summary", "summary")],
        Link::Result => seq![("Output", "output")],
        Link::Completion => seq![
            ("Command", "command"),
            ("Working directory", "cwd"),
            ("Output", "output"),
            ("Output", "aggregated_output"),
            ("Changes", "changes"),
            ("Path", "path"),
            ("Details", "content"),
            ("Text", "text"),
            ("Result", "result"),
        ],
        Link::Compaction => seq![("Summary", "message"), ("Summary", "summary")],
        Link::Context => seq![("Message", "message"), ("Text", "content"), ("Text", "text")],
        Link::Skip => Seq::empty(),
    }
}

/// The canonical instant of a record's timestamp.
pub open spec fn record_time(r: Record) -> Option<Time> {
    match r.timestamp {
        Some(t) => match crate::adapter::instant_of(t@) {
            Ok((seconds, nanos)) => Some(Time { seconds, nanos }),
            Err(_) => None,
        },
        None => None,
    }
}

/// The start of an item in milliseconds: the payload's own value when present,
/// otherwise the item's.
pub open spec fn start_ms(r: Record) -> Option<i64> {
    match r.payload.started_at_ms {
        Some(value) => value,
        None => match item_of(r).started_at_ms {
            Some(value) => value,
            None => None,
        },
    }
}

/// A millisecond instant.
pub open spec fn ms_time(ms: i64) -> Time {
    Time { seconds: (ms / 1000) as i64, nanos: ((ms % 1000) * 1000000) as u32 }
}

/// The item started outside the selected interval.
pub open spec fn started_outside(window: Window, r: Record) -> bool {
    start_ms(r) is Some && !window_contains(window, ms_time(start_ms(r).unwrap()))
}

/// The key that keeps one event from being reported twice.
pub open spec fn unique_key(r: Record, link: Link, id: Seq<char>) -> Seq<char> {
    event_kind(r, link) + ":"@ + id + ":"@ + base_of(r, link)
}

/// The outcome of a record after the batch was located: the scan that follows,
/// and whether the record yields an event.
pub open spec fn followed(m: ScanModel, r: Record, offset: u64, same: bool) -> (ScanModel, bool) {
    let k = kinds_of(r);
    if k.usage && offset > m.anchor_offset {
        (ScanModel { next_usage: true, finished: m.finished || m.open_count == 0, ..m }, false)
    } else {
        let id = record_id(r, offset);
        let m1 = later_calls_noted(m, r, offset, same, id);
        let link = link_of(m1, r, offset, same, id);
        if link == Link::Skip || (link == Link::Completion && completion_skips(m1, r, id)) {
            (m1, false)
        } else {
            emitted(linked(m1, r, link, id), r, link, id)
        }
    }
}

/// The outcome once a record's activity is linked: untimed or out-of-window
/// activity is noted and hidden, and each event is reported once.
pub open spec fn emitted(m2: ScanModel, r: Record, link: Link, id: Seq<char>) -> (ScanModel, bool) {
    match record_time(r) {
        None => (ScanModel { notices: Notices { untimed: true, ..m2.notices }, ..m2 }, false),
        Some(t) => if !window_contains(m2.window, t) {
            (ScanModel { excluded: true, ..m2 }, false)
        } else {
            let m3 = ScanModel { excluded: m2.excluded || started_outside(m2.window, r), ..m2 };
            let unique = unique_key(r, link, id);
            if m3.seen_count < MAX_LINKS {
                if m3.seen.contains(unique) {
                    (m3, false)
                } else {
                    (ScanModel { seen: m3.seen.insert(unique), seen_count: m3.seen_count + 1, ..m3 }, true)
                }
            } else {
                (m3, true)
            }
        },
    }
}

/// The displayed text of a record member, by name.
pub open spec fn lookup(fields: Seq<(String, String)>, name: Seq<char>) -> Option<Seq<char>>
    decreases fields.len(),
{
    if fields.len() == 0 {
        None
    } else if fields[0].0@ == name {
        Some(fields[0].1@)
    } else {
        lookup(fields.drop_first(), name)
    }
}

/// The first four hundred characters of a text.
pub open spec fn preview_of(text: Seq<char>) -> Seq<char> {
    if text.len() <= PREVIEW_CHARS { text } else { text.take(PREVIEW_CHARS as int) }
}

/// Labelled fields without the command and its directory.
pub open spec fn without_command(ptrs: Seq<(&'static str, &'static str)>) -> Seq<(&'static str, &'static str)>
    decreases ptrs.len(),
{
    if ptrs.len() == 0 {
        Seq::empty()
    } else {
        let rest = without_command(ptrs.drop_last());
        let name = ptrs.last().1;
        if name@ == "command"@ || name@ == "cwd"@ { rest } else { rest.push(ptrs.last()) }
    }
}

/// The present, nonempty fields of an event: label, preview and location.
pub open spec fn field_views(data: Entry, base: Seq<char>, ptrs: Seq<(&'static str, &'static str)>)
    -> Seq<(&'static str, Seq<char>, Seq<char>)>
    decreases ptrs.len(),
{
    if ptrs.len() == 0 {
        Seq::empty()
    } else {
        let rest = field_views(data, base, ptrs.drop_last());
        let (label, name) = ptrs.last();
        match lookup(data.fields@, name@) {
            Some(text) => if text.len() > 0 { rest.push((label, preview_of(text), base + "/"@ + name@)) } else { rest },
            None => rest,
        }
    }
}

/// Changed paths of at most 4096 bytes, the first hundred.
pub open spec fn short_keys(keys: Seq<String>) -> Seq<Seq<char>>
    decreases keys.len(),
{
    if keys.len() == 0 {
        Seq::empty()
    } else {
        let rest = short_keys(keys.drop_last());
        if byte_len(keys.last()@) <= 4096 { rest.push(keys.last()@) } else { rest }
    }
}

/// The paths an entry names: its changes and its path.
pub open spec fn listed_paths(data: Entry) -> Seq<Seq<char>> {
    let changed = match data.changes {
        Some(keys) => {
            let all = short_keys(keys@);
            if all.len() <= 100 { all } else { all.take(100) }
        },
        None => Seq::empty(),
    };
    match data.path {
        Some(p) => if byte_len(p@) <= 4096 { changed.push(p@) } else { changed },
        None => changed,
    }
}

/// The paths of an event and whether they were inferred from a command.
pub open spec fn event_paths(data: Entry, command_run: bool) -> (Seq<Seq<char>>, bool) {
    if command_run && data.command is Some {
        let p = inferred_paths_of(data.command.unwrap()@);
        (p, p.len() > 0)
    } else {
        (listed_paths(data), false)
    }
}

/// The status of an item: its status text, or its exit code.
pub open spec fn status_of(item: Entry) -> Option<Seq<char>> {
    match opt_view(bounded(item.status, 1024)) {
        Some(s) => Some(s),
        None => match opt_view(item.exit_code) {
            Some(code) => Some("Exit "@ + code),
            None => None,
        },
    }
}

/// The event a record yields, as the scan before it determines.
pub open spec fn drafted(m: ScanModel, r: Record, offset: u64, same: bool, d: Draft) -> bool {
    let id = record_id(r, offset);
    let m1 = later_calls_noted(m, r, offset, same, id);
    let link = link_of(m1, r, offset, same, id);
    &&& shaped(m.window, r, offset, link, d)
    &&& d.association == link_association(m1, link, id)
    &&& opt_view(d.parent_id) == link_parent(m1, link, id)
}

/// The event's own content: identity, time, kind, label, fields, status and paths.
pub open spec fn shaped(window: Window, r: Record, offset: u64, link: Link, d: Draft) -> bool {
    let outside = started_outside(window, r);
    let data = if item_based(r, link) { item_of(r) } else { r.payload };
    let ptrs = if outside && item_kind(r) == "CommandExecution"@ { without_command(pointers_of(link)) } else { pointers_of(link) };
    let paths = event_paths(data, item_kind(r) == "CommandExecution"@ && !outside);
    &&& d.id@ == "event-"@ + decimal(offset as int) + "-"@ + event_kind(r, link)
    &&& record_time(r) == Some(d.time)
    &&& d.kind@ == event_kind(r, link)
    &&& d.label@ == event_label(r, link)
    &&& d.fields@.map_values(|f: FieldDraft| (f.label, f.preview@, f.pointer@)) == field_views(data, base_of(r, link), ptrs)
    &&& opt_view(d.status) == status_of(item_of(r))
    &&& texts_of(d.paths@) == paths.0
    &&& d.paths_inferred == paths.1
}

fn item_ref(record: &Record) -> (result: &Entry)
    ensures
        *result == item_of(*record),
{
    match &record.item {
        Some(item) => item,
        None => &record.payload,
    }
}

fn item_kind_text(record: &Record) -> (result: String)
    ensures
        result@ == item_kind(*record),
{
    let empty = String::new();
    match &item_ref(record).kind {
        Some(k) => if k.as_str().len() <= 128 { k.clone() } else { empty },
        None => empty,
    }
}

fn record_id_text(record: &Record, offset: u64) -> (result: String)
    ensures
        result@ == record_id(*record, offset),
{
    match bounded_text(&record.payload.call_id, 1024) {
        Some(t) => t,
        None => match bounded_text(&item_ref(record).id, 1024) {
            Some(t) => t,
            None => {
                let mut text = String::new();
                push_str(&mut text, "record-");
                push_u128(&mut text, offset as u128);
                assert(text@ =~= "record-"@ + decimal(offset as int));
                text
            },
        },
    }
}

fn time_of(record: &Record) -> (result: Option<Time>)
    ensures
        result == record_time(*record),
{
    match &record.timestamp {
        Some(t) => match observation_time(t.as_str()) {
            Ok((seconds, nanos)) => Some(Time { seconds, nanos }),
            Err(_) => None,
        },
        None => None,
    }
}

fn start_of(record: &Record) -> (result: Option<i64>)
    ensures
        result == start_ms(*record),
{
    match record.payload.started_at_ms {
        Some(value) => value,
        None => match item_ref(record).started_at_ms {
            Some(value) => value,
            None => None,
        },
    }
}

fn ms_instant(ms: i64) -> (result: Time)
    ensures
        result == ms_time(ms),
{
    let seconds = ms.checked_div_euclid(1000).unwrap();
    let rest = ms.checked_rem_euclid(1000).unwrap();
    assert(0 <= rest < 1000);
    Time { seconds, nanos: (rest as u32) * 1000000 }
}

fn is_text(text: &String, expected: &str) -> (result: bool)
    ensures
        result == (text@ == expected@),
{
    str_eq(text.as_str(), expected)
}

fn event_kind_text(record: &Record, link: Link) -> (result: String)
    ensures
        result@ == event_kind(*record, link),
{
    proof {
        reveal_strlit("");
    }
    match link {
        Link::Generated => match &record.payload.kind {
            Some(k) => k.clone(),
            None => {
                let empty = String::new();
                empty
            },
        },
        Link::Result => crate::text::owned("toolOutput"),
        Link::Completion => item_kind_text(record),
        Link::Compaction => crate::text::owned("compaction"),
        Link::Context => crate::text::owned("context"),
        Link::Skip => String::new(),
    }
}

fn event_label_text(record: &Record, link: Link) -> (result: String)
    ensures
        result@ == event_label(*record, link),
{
    match link {
        Link::Generated => match bounded_text(&record.payload.name, 1024) {
            Some(name) => name,
            None => if text_is(&record.payload.kind, "reasoning") {
                crate::text::owned("Available reasoning summary")
            } else if text_is(&record.payload.kind, "message") {
                crate::text::owned("Assistant message")
            } else {
                crate::text::owned("Tool call")
            },
        },
        Link::Result => crate::text::owned("Tool result"),
        Link::Completion => {
            let k = item_kind_text(record);
            if is_text(&k, "CommandExecution") {
                crate::text::owned("Command")
            } else if is_text(&k, "FileChange") {
                crate::text::owned("File changes")
            } else if is_text(&k, "ImageView") {
                crate::text::owned("Viewed image")
            } else {
                k
            }
        },
        Link::Compaction => crate::text::owned("Context compaction"),
        Link::Context => crate::text::owned("Incoming message / call context"),
        Link::Skip => String::new(),
    }
}

fn pointer_list(link: Link) -> (result: Vec<(&'static str, &'static str)>)
    ensures
        result@ == pointers_of(link),
{
    let result = match link {
        Link::Generated => vec![("Arguments", "arguments"), ("Input", "input"), ("Text", "content"), ("Summary", "summary")],
        Link::Result => vec![("Output", "output")],
        Link::Completion => vec![
            ("Command", "command"),
            ("Working directory", "cwd"),
            ("Output", "output"),
            ("Output", "aggregated_output"),
            ("Changes", "changes"),
            ("Path", "path"),
            ("Details", "content"),
            ("Text", "text"),
            ("Result", "result"),
        ],
        Link::Compaction => vec![("Summary", "message"), ("Summary", "summary")],
        Link::Context => vec![("Message", "message"), ("Text", "content"), ("Text", "text")],
        Link::Skip => Vec::new(),
    };
    assert(result@ =~= pointers_of(link));
    result
}

fn drop_command(ptrs: Vec<(&'static str, &'static str)>) -> (result: Vec<(&'static str, &'static str)>)
    ensures
        result@ == without_command(ptrs@),
{
    let mut result: Vec<(&'static str, &'static str)> = Vec::new();
    let mut i: usize = 0;
    while i < ptrs.len()
        invariant
            0 <= i <= ptrs@.len(),
            result@ == without_command(ptrs@.take(i as int)),
        decreases ptrs@.len() - i,
    {
        assert(ptrs@.take(i + 1).drop_last() =~= ptrs@.take(i as int));
        let (label, name) = ptrs[i];
        if !(str_eq(name, "command") || str_eq(name, "cwd")) {
            result.push((label, name));
        }
        assert(ptrs@.take(i + 1).last() == ptrs@[i as int]);
        i = i + 1;
    }
    assert(ptrs@.take(ptrs@.len() as int) =~= ptrs@);
    result
}

fn lookup_text<'a>(fields: &'a Vec<(String, String)>, name: &str) -> (result: Option<&'a String>)
    ensures
        match result {
            Some(t) => lookup(fields@, name@) == Some(t@),
            None => lookup(fields@, name@) is None,
        },
{
    let mut i: usize = 0;
    assert(fields@.subrange(0, fields@.len() as int) =~= fields@);
    while i < fields.len()
        invariant
            0 <= i <= fields@.len(),
            lookup(fields@, name@) == lookup(fields@.subrange(i as int, fields@.len() as int), name@),
        decreases fields@.len() - i,
    {
        let ghost rest = fields@.subrange(i as int, fields@.len() as int);
        assert(rest.drop_first() =~= fields@.subrange(i + 1, fields@.len() as int));
        if str_eq(fields[i].0.as_str(), name) {
            return Some(&fields[i].1);
        }
        i = i + 1;
    }
    None
}

fn preview(text: &String) -> (result: String)
    ensures
        result@ == preview_of(text@),
{
    let length = text.as_str().unicode_len();
    let end = if length <= PREVIEW_CHARS { length } else { PREVIEW_CHARS };
    let part = text.as_str().substring_char(0, end);
    let result = crate::text::owned(part);
    assert(result@ =~= preview_of(text@));
    result
}

fn field_drafts(data: &Entry, base: &str, ptrs: &Vec<(&'static str, &'static str)>) -> (result: Vec<FieldDraft>)
    ensures
        result@.map_values(|f: FieldDraft| (f.label, f.preview@, f.pointer@)) == field_views(*data, base@, ptrs@),
{
    let mut result: Vec<FieldDraft> = Vec::new();
    let mut i: usize = 0;
    assert(ptrs@.take(0) =~= Seq::<(&'static str, &'static str)>::empty());
    while i < ptrs.len()
        invariant
            0 <= i <= ptrs@.len(),
            result@.map_values(|f: FieldDraft| (f.label, f.preview@, f.pointer@)) == field_views(*data, base@, ptrs@.take(i as int)),
        decreases ptrs@.len() - i,
    {
        assert(ptrs@.take(i + 1).drop_last() =~= ptrs@.take(i as int));
        assert(ptrs@.take(i + 1).last() == ptrs@[i as int]);
        let (label, name) = ptrs[i];
        let ghost before = result@.map_values(|f: FieldDraft| (f.label, f.preview@, f.pointer@));
        match lookup_text(&data.fields, name) {
            Some(text) => {
                if text.as_str().unicode_len() > 0 {
                    let mut pointer = String::new();
                    push_str(&mut pointer, base);
                    push_char(&mut pointer, '/');
                    push_str(&mut pointer, name);
                    let draft = FieldDraft { label, preview: preview(text), pointer };
                    proof {
                        reveal_strlit("/");
                        assert(draft.pointer@ =~= base@ + "/"@ + name@);
                    }
                    result.push(draft);
                    assert(result@.map_values(|f: FieldDraft| (f.label, f.preview@, f.pointer@))
                        =~= before.push((label, preview_of(text@), base@ + "/"@ + name@)));
                }
            },
            None => {},
        }
        i = i + 1;
    }
    assert(ptrs@.take(ptrs@.len() as int) =~= ptrs@);
    result
}

fn listed(data: &Entry) -> (result: Vec<String>)
    ensures
        texts_of(result@) == listed_paths(*data),
{
    let mut result: Vec<String> = Vec::new();
    match &data.changes {
        Some(keys) => {
            let mut i: usize = 0;
            while i < keys.len() && result.len() < 100
                invariant
                    0 <= i <= keys@.len(),
                    ({
                        let all = short_keys(keys@.take(i as int));
                        &&& all.len() <= 100 ==> texts_of(result@) == all
                        &&& all.len() > 100 ==> texts_of(result@) == all.take(100)
                    }),
                    result@.len() <= 100,
                decreases keys@.len() - i,
            {
                assert(keys@.take(i + 1).drop_last() =~= keys@.take(i as int));
                assert(keys@.take(i + 1).last() == keys@[i as int]);
                let ghost before = texts_of(result@);
                if keys[i].as_str().len() <= 4096 {
                    result.push(keys[i].clone());
                    assert(texts_of(result@) =~= before.push(keys@[i as int]@));
                }
                i = i + 1;
            }
            proof {
                lemma_short_keys_prefix(keys@, i as int, keys@.len() as int);
                assert(keys@.take(keys@.len() as int) =~= keys@);
                let found_keys = short_keys(keys@.take(i as int));
                let full = short_keys(keys@);
                if i < keys@.len() {
                    assert(full.take(100) =~= found_keys.take(100)) by {
                        assert(full.take(found_keys.len() as int) == found_keys);
                    }
                }
            }
        },
        None => {},
    }
    let ghost changed = texts_of(result@);
    match &data.path {
        Some(p) => if p.as_str().len() <= 4096 {
            result.push(p.clone());
            assert(texts_of(result@) =~= changed.push(p@));
        },
        None => {},
    }
    result
}

proof fn lemma_short_keys_prefix(keys: Seq<String>, i: int, j: int)
    requires
        0 <= i <= j <= keys.len(),
    ensures
        short_keys(keys.take(j)).len() >= short_keys(keys.take(i)).len(),
        short_keys(keys.take(j)).take(short_keys(keys.take(i)).len() as int) == short_keys(keys.take(i)),
    decreases j - i,
{
    if i == j {
        assert(short_keys(keys.take(j)).take(short_keys(keys.take(i)).len() as int) =~= short_keys(keys.take(i)));
    } else {
        lemma_short_keys_prefix(keys, i, j - 1);
        assert(keys.take(j).drop_last() =~= keys.take(j - 1));
        let shorter = short_keys(keys.take(j - 1));
        let k = short_keys(keys.take(i)).len() as int;
        let longer = short_keys(keys.take(j));
        if longer.len() > shorter.len() {
            assert(longer.take(k) =~= shorter.take(k));
        }
    }
}

fn paths_of(data: &Entry, command_run: bool) -> (result: (Vec<String>, bool))
    ensures
        texts_of(result.0@) == event_paths(*data, command_run).0,
        result.1 == event_paths(*data, command_run).1,
{
    if command_run {
        if let Some(command) = &data.command {
            let paths = inferred_paths(command.as_str());
            let inferred = paths.len() > 0;
            return (paths, inferred);
        }
    }
    (listed(data), false)
}

fn status_text(item: &Entry) -> (result: Option<String>)
    ensures
        opt_view(result) == status_of(*item),
{
    match bounded_text(&item.status, 1024) {
        Some(s) => Some(s),
        None => match &item.exit_code {
            Some(code) => {
                let mut text = String::new();
                push_str(&mut text, "Exit ");
                push_str(&mut text, code.as_str());
                assert(text@ =~= "Exit "@ + code@);
                Some(text)
            },
            None => None,
        },
    }
}

impl Scan {
    fn track_others(&mut self, record: &Record, kinds: &Kinds, same: bool, offset: u64, id: &String)
        requires
            well_formed(*old(self)),
            *kinds == kinds_of(*record),
        ensures
            well_formed(*final(self)),
            final(self)@ == later_calls_noted(old(self)@, *record, offset, same, id@),
            final(self).generated == old(self).generated,
            final(self).open_tools == old(self).open_tools,
            final(self).seen == old(self).seen,
            final(self).window == old(self).window,
            final(self).anchor == old(self).anchor,
    {
        if kinds.generated && offset > self.anchor.offset && same && kinds.tool_call
            && self.other_tools.len() < MAX_LINKS {
            self.other_tools.insert(id.clone());
        }
        if kinds.output {
            self.other_tools.remove(id.as_str());
        }
    }

    fn link_for(&self, record: &Record, kinds: &Kinds, same: bool, offset: u64, id: &String) -> (result: Link)
        requires
            *kinds == kinds_of(*record),
        ensures
            result == link_of(self@, *record, offset, same, id@),
    {
        if kinds.generated && offset < self.anchor.offset && same {
            Link::Generated
        } else if kinds.output && self.generated.contains(id.as_str()) {
            Link::Result
        } else if kinds.item_completed && same {
            Link::Completion
        } else if kinds.compacted && self.anchor.response_id.is_some()
            && same_text(&record.payload.compaction_response_id, &self.anchor.response_id) {
            Link::Compaction
        } else if same && offset < self.anchor.offset && kinds.context {
            Link::Context
        } else {
            Link::Skip
        }
    }

    fn completion_is_silent(&self, record: &Record, id: &String) -> (result: bool)
        ensures
            result == completion_skips(self@, *record, id@),
    {
        if self.generated.contains(id.as_str()) {
            let k = item_kind_text(record);
            is_text(&k, "AgentMessage") || is_text(&k, "Reasoning") || is_text(&k, "agent_message")
                || is_text(&k, "reasoning")
        } else if self.open_tools.len() == 1 && self.other_tools.len() == 0 {
            false
        } else {
            self.next_usage && self.open_tools.len() == 0
        }
    }

    fn link_association_of(&self, link: Link, id: &String) -> (result: &'static str)
        ensures
            result == link_association(self@, link, id@),
    {
        match link {
            Link::Generated => if self.generated.len() >= MAX_LINKS { "unassigned" } else { self.association() },
            Link::Result => "itemId",
            Link::Completion => if self.generated.contains(id.as_str()) {
                "itemId"
            } else if self.open_tools.len() == 1 && self.other_tools.len() == 0 {
                "activeBatch"
            } else {
                "unassigned"
            },
            Link::Compaction => "responseId",
            Link::Context => "context",
            Link::Skip => self.association(),
        }
    }

    fn link_parent_of(&self, link: Link, id: &String) -> (result: Option<String>)
        ensures
            opt_view(result) == link_parent(self@, link, id@),
    {
        match link {
            Link::Result => Some(id.clone()),
            Link::Completion => if self.generated.contains(id.as_str()) {
                Some(id.clone())
            } else if self.open_tools.len() == 1 && self.other_tools.len() == 0 {
                let only = self.open_tools.only();
                proof {
                    let single = Set::<Seq<char>>::empty().insert(self.open_tools.items@[0]@);
                    assert(single.contains(self.open_tools.items@[0]@));
                    assert(single.choose() == self.open_tools.items@[0]@);
                }
                only
            } else {
                None
            },
            _ => None,
        }
    }

    fn note_generation(&mut self, id: &String)
        requires
            well_formed(*old(self)),
        ensures
            well_formed(*final(self)),
            final(self)@ == generation_noted(old(self)@, id@),
            final(self).open_tools == old(self).open_tools,
            final(self).other_tools == old(self).other_tools,
            final(self).seen == old(self).seen,
            final(self).window == old(self).window,
            final(self).anchor == old(self).anchor,
    {
        if self.generated.len() >= MAX_LINKS {
            self.notices.link_budget = true;
        } else {
            self.generated.insert(id.clone());
        }
    }

    fn open_tool(&mut self, id: &String)
        requires
            well_formed(*old(self)),
        ensures
            well_formed(*final(self)),
            final(self)@ == (ScanModel {
                open_tools: with_id(old(self)@.open_tools, old(self)@.open_count, id@).0,
                open_count: with_id(old(self)@.open_tools, old(self)@.open_count, id@).1,
                ..old(self)@
            }),
            final(self).generated == old(self).generated,
            final(self).other_tools == old(self).other_tools,
            final(self).seen == old(self).seen,
            final(self).window == old(self).window,
            final(self).anchor == old(self).anchor,
    {
        self.open_tools.insert(id.clone());
    }

    fn link_result(&mut self, id: &String)
        requires
            well_formed(*old(self)),
        ensures
            well_formed(*final(self)),
            final(self)@ == (ScanModel {
                open_tools: without_id(old(self)@.open_tools, old(self)@.open_count, id@).0,
                open_count: without_id(old(self)@.open_tools, old(self)@.open_count, id@).1,
                ..old(self)@
            }),
            final(self).generated == old(self).generated,
            final(self).other_tools == old(self).other_tools,
            final(self).seen == old(self).seen,
            final(self).window == old(self).window,
            final(self).anchor == old(self).anchor,
    {
        self.open_tools.remove(id.as_str());
    }

    fn apply_link(&mut self, kinds: &Kinds, record: &Record, link: Link, id: &String)
        requires
            well_formed(*old(self)),
            *kinds == kinds_of(*record),
        ensures
            well_formed(*final(self)),
            final(self)@ == linked(old(self)@, *record, link, id@),
            final(self).other_tools == old(self).other_tools,
            final(self).seen == old(self).seen,
            final(self).window == old(self).window,
            final(self).anchor == old(self).anchor,
    {
        proof {
            reveal(kinds_of);
        }
        match link {
            Link::Generated => {
                self.note_generation(id);
                if kinds.tool_call {
                    self.open_tool(id);
                }
            },
            Link::Result => self.link_result(id),
            _ => {},
        }
    }
}

fn joined_key(kind: &String, id: &String, base: &str) -> (result: String)
    ensures
        result@ == kind@ + ":"@ + id@ + ":"@ + base@,
{
    let mut key = String::new();
    push_str(&mut key, kind.as_str());
    push_char(&mut key, ':');
    push_str(&mut key, id.as_str());
    push_char(&mut key, ':');
    push_str(&mut key, base);
    proof {
        reveal_strlit(":");
    }
    assert(key@ =~= kind@ + ":"@ + id@ + ":"@ + base@);
    key
}

fn event_id_text(offset: u64, kind: &String) -> (result: String)
    ensures
        result@ == "event-"@ + decimal(offset as int) + "-"@ + kind@,
{
    let mut text = String::new();
    push_str(&mut text, "event-");
    push_u128(&mut text, offset as u128);
    push_str(&mut text, "-");
    push_str(&mut text, kind.as_str());
    assert(text@ =~= "event-"@ + decimal(offset as int) + "-"@ + kind@);
    text
}

impl Scan {
    fn report_once(&mut self, unique: String) -> (result: bool)
        requires
            well_formed(*old(self)),
        ensures
            well_formed(*final(self)),
            ({
                let m = old(self)@;
                if m.seen_count < MAX_LINKS {
                    if m.seen.contains(unique@) {
                        final(self)@ == m && !result
                    } else {
                        final(self)@ == (ScanModel { seen: m.seen.insert(unique@), seen_count: m.seen_count + 1, ..m }) && result
                    }
                } else {
                    final(self)@ == m && result
                }
            }),
            final(self).window == old(self).window,
            final(self).anchor == old(self).anchor,
    {
        let ghost m = self@;
        let ghost text = unique@;
        if self.seen.len() < MAX_LINKS {
            let fresh = self.seen.insert(unique);
            if !fresh {
                assert(m.seen.insert(text) =~= m.seen);
            }
            fresh
        } else {
            true
        }
    }

    fn timed(&mut self, record: &Record) -> (result: Option<Time>)
        ensures
            ({
                let m = old(self)@;
                match record_time(*record) {
                    None => final(self)@ == (ScanModel { notices: Notices { untimed: true, ..m.notices }, ..m }) && result is None,
                    Some(t) => if !window_contains(m.window, t) {
                        final(self)@ == (ScanModel { excluded: true, ..m }) && result is None
                    } else {
                        final(self)@ == m && result == Some(t)
                    },
                }
            }),
            final(self).generated == old(self).generated,
            final(self).open_tools == old(self).open_tools,
            final(self).other_tools == old(self).other_tools,
            final(self).seen == old(self).seen,
            final(self).window == old(self).window,
            final(self).anchor == old(self).anchor,
    {
        let time = match time_of(record) {
            Some(t) => t,
            None => {
                self.notices.untimed = true;
                return None;
            },
        };
        if !self.window.contains(time) {
            self.excluded = true;
            return None;
        }
        Some(time)
    }

    fn note_start(&mut self, record: &Record) -> (result: bool)
        ensures
            result == started_outside(old(self).window, *record),
            final(self)@ == (ScanModel { excluded: old(self)@.excluded || result, ..old(self)@ }),
            final(self).generated == old(self).generated,
            final(self).open_tools == old(self).open_tools,
            final(self).other_tools == old(self).other_tools,
            final(self).seen == old(self).seen,
            final(self).window == old(self).window,
            final(self).anchor == old(self).anchor,
    {
        let outside = match start_of(record) {
            Some(ms) => !self.window.contains(ms_instant(ms)),
            None => false,
        };
        if outside {
            self.excluded = true;
        }
        outside
    }

    fn emit(&mut self, record: &Record, link: Link, id: &String, offset: u64,
        association: &'static str, parent: Option<String>) -> (result: Option<Draft>)
        requires
            well_formed(*old(self)),
        ensures
            well_formed(*final(self)),
            final(self)@ == emitted(old(self)@, *record, link, id@).0,
            result is Some == emitted(old(self)@, *record, link, id@).1,
            final(self).window == old(self).window,
            final(self).anchor == old(self).anchor,
            match result {
                Some(d) => shaped(old(self).window, *record, offset, link, d) && d.association == association
                    && d.parent_id == parent,
                None => true,
            },
    {
        let time = match self.timed(record) {
            Some(t) => t,
            None => return None,
        };
        let outside = self.note_start(record);
        let item_based_link = link == Link::Completion && record.item.is_some();
        let base: &str = if item_based_link { "/payload/item" } else { "/payload" };
        let kind = event_kind_text(record, link);
        let unique = joined_key(&kind, id, base);
        if !self.report_once(unique) {
            return None;
        }
        let draft = draft_of(&self.window, record, link, offset, outside, item_based_link, base, kind, time,
            association, parent);
        Some(draft)
    }

    fn follow(&mut self, record: &Record, kinds: &Kinds, same: bool, offset: u64) -> (result: Option<Draft>)
        requires
            well_formed(*old(self)),
            *kinds == kinds_of(*record),
        ensures
            well_formed(*final(self)),
            final(self)@ == followed(old(self)@, *record, offset, same).0,
            result is Some == followed(old(self)@, *record, offset, same).1,
            final(self).window == old(self).window,
            final(self).anchor == old(self).anchor,
            match result {
                Some(d) => drafted(old(self)@, *record, offset, same, d),
                None => true,
            },
    {
        if kinds.usage && offset > self.anchor.offset {
            self.next_usage = true;
            if self.open_tools.len() == 0 {
                self.finished = true;
            }
            return None;
        }
        let id = record_id_text(record, offset);
        self.track_others(record, kinds, same, offset, &id);
        let link = self.link_for(record, kinds, same, offset, &id);
        if link == Link::Skip {
            return None;
        }
        if link == Link::Completion && self.completion_is_silent(record, &id) {
            return None;
        }
        let association = self.link_association_of(link, &id);
        let parent = self.link_parent_of(link, &id);
        self.apply_link(kinds, record, link, &id);
        self.emit(record, link, &id, offset, association, parent)
    }
}

fn draft_of(window: &Window, record: &Record, link: Link, offset: u64, outside: bool, item_based_link: bool,
    base: &str, kind: String, time: Time, association: &'static str, parent: Option<String>) -> (result: Draft)
    requires
        outside == started_outside(*window, *record),
        item_based_link == item_based(*record, link),
        base@ == base_of(*record, link),
        kind@ == event_kind(*record, link),
        record_time(*record) == Some(time),
    ensures
        shaped(*window, *record, offset, link, result),
        result.association == association,
        result.parent_id == parent,
{
    let command_item = is_text(&item_kind_text(record), "CommandExecution");
    let mut ptrs = pointer_list(link);
    if outside && command_item {
        ptrs = drop_command(ptrs);
    }
    let data: &Entry = if item_based_link { item_ref(record) } else { &record.payload };
    let fields = field_drafts(data, base, &ptrs);
    let (paths, paths_inferred) = paths_of(data, command_item && !outside);
    let label = event_label_text(record, link);
    let status = status_text(item_ref(record));
    let id_text = event_id_text(offset, &kind);
    Draft {
        id: id_text,
        time,
        kind,
        label,
        association,
        parent_id: parent,
        fields,
        status,
        paths,
        paths_inferred,
    }
}

// ------------------------------------------------------------------ one record, one page

/// The scan after one record (None: a malformed record), and whether it yields an event.
pub open spec fn inspected(m: ScanModel, record: Option<Record>, offset: u64, length: u64) -> (ScanModel, bool) {
    match record {
        None => (ScanModel { notices: Notices { malformed: true, ..m.notices }, ..m }, false),
        Some(r) => {
            let m1 = opened(m, r, offset);
            if m1.locating {
                (located(m1, r, offset, length), false)
            } else {
                followed(m1, r, offset, same_turn(m1, r))
            }
        },
    }
}

/// The scan after appending a piece to the record in progress: the record's start
/// is fixed when it begins, and a record longer than the line limit is dropped
/// (and the rest of it skipped) with a notice.
pub open spec fn absorbed(m: ScanModel, piece: Seq<u8>) -> ScanModel {
    let start = if m.tail.len() == 0 && !m.discarding { m.offset } else { m.tail_start };
    let overflow = !m.discarding && m.tail.len() + piece.len() > MAX_LINE;
    ScanModel {
        tail_start: start,
        offset: (m.offset + piece.len()) as u64,
        tail: if m.discarding { m.tail } else if overflow { Seq::empty() } else { m.tail + piece },
        discarding: m.discarding || overflow,
        notices: Notices { oversized: m.notices.oversized || overflow, ..m.notices },
        ..m
    }
}

/// A piece of the source read into the scan, and the complete record it ends, if
/// any, with that record's offset.
pub open spec fn pieced(m: ScanModel, piece: Seq<u8>) -> (ScanModel, Option<(Seq<u8>, u64)>) {
    let a = absorbed(m, piece);
    let ends = piece.len() > 0 && piece.last() == 10u8;
    if ends && !a.discarding {
        (ScanModel { tail: Seq::empty(), ..a }, Some((a.tail, a.tail_start)))
    } else if ends {
        (ScanModel { discarding: false, ..a }, None)
    } else {
        (a, None)
    }
}

fn extend(tail: &mut Vec<u8>, piece: &[u8])
    ensures
        final(tail)@ == old(tail)@ + piece@,
{
    let mut i: usize = 0;
    let ghost before = tail@;
    while i < piece.len()
        invariant
            0 <= i <= piece@.len(),
            tail@ == before + piece@.take(i as int),
        decreases piece@.len() - i,
    {
        tail.push(piece[i]);
        assert(tail@ =~= before + piece@.take(i + 1));
        i = i + 1;
    }
    assert(piece@.take(piece@.len() as int) =~= piece@);
}

fn next_tail(tail: &mut Vec<u8>, piece: &[u8], discarding: bool) -> (overflow: bool)
    ensures
        overflow == (!discarding && old(tail)@.len() + piece@.len() > MAX_LINE),
        final(tail)@ == if discarding {
            old(tail)@
        } else if overflow {
            Seq::<u8>::empty()
        } else {
            old(tail)@ + piece@
        },
{
    if discarding {
        return false;
    }
    if tail.len() > MAX_LINE || piece.len() > MAX_LINE - tail.len() {
        *tail = Vec::new();
        assert(tail@ =~= Seq::<u8>::empty());
        return true;
    }
    extend(tail, piece);
    false
}

/// Whether any notice was raised.
pub open spec fn any_notice(n: Notices) -> bool {
    n.malformed || n.multiple_phases || n.opening_unknown || n.oversized || n.untimed || n.hidden
        || n.incomplete_tail || n.link_budget
}

impl Scan {
    /// Reads one record (None when it is not valid JSON) at `offset`, `length`
    /// bytes long: while locating, it advances the batch; afterwards, it may yield
    /// one event of the anchor's invocation.
    pub fn inspect(&mut self, record: Option<&Record>, offset: u64, length: u64) -> (result: Option<Draft>)
        requires
            well_formed(*old(self)),
            offset + length <= u64::MAX,
        ensures
            well_formed(*final(self)),
            final(self)@ == inspected(old(self)@, match record { Some(r) => Some(*r), None => None }, offset, length).0,
            result is Some == inspected(old(self)@, match record { Some(r) => Some(*r), None => None }, offset, length).1,
            final(self).window == old(self).window,
            final(self).anchor == old(self).anchor,
            match (record, result) {
                (Some(r), Some(d)) => drafted(opened(old(self)@, *r, offset), *r, offset,
                    same_turn(opened(old(self)@, *r, offset), *r), d),
                _ => true,
            },
    {
        let record = match record {
            Some(r) => r,
            None => {
                self.notices.malformed = true;
                return None;
            },
        };
        let kinds = classify(record);
        self.open_turn(record, &kinds, offset);
        let same = self.in_anchor_turn(record);
        if self.locating {
            self.locate(record, &kinds, same, offset, length);
            return None;
        }
        self.follow(record, &kinds, same, offset)
    }

    /// Whether the page should read another piece: budget and source remain, the
    /// page has room and the invocation's activity is not known to be complete.
    pub fn wants_piece(&self, budget: usize, events: usize) -> (result: bool)
        ensures
            result == (budget > 0 && self.offset < self.anchor.size && events < PAGE && !self.finished),
    {
        budget > 0 && self.offset < self.anchor.size && events < PAGE && !self.finished
    }

    /// The most bytes the next piece may hold.
    pub fn piece_cap(&self, budget: usize) -> (result: usize)
        requires
            self.offset < self.anchor.size,
        ensures
            result <= budget,
            result <= 65536,
            result <= self.anchor.size - self.offset,
            result == budget || result == 65536 || result == self.anchor.size - self.offset,
    {
        let remaining = self.anchor.size - self.offset;
        let mut cap = if budget < 65536 { budget } else { 65536 };
        if (remaining as u128) < (cap as u128) {
            cap = remaining as usize;
        }
        cap
    }

    #[verifier::spinoff_prover]
    #[verifier::rlimit(100)]
    fn absorb(&mut self, piece: &[u8])
        requires
            old(self).offset + piece@.len() <= u64::MAX,
        ensures
            final(self)@ == absorbed(old(self)@, piece@),
            final(self).generated == old(self).generated,
            final(self).open_tools == old(self).open_tools,
            final(self).other_tools == old(self).other_tools,
            final(self).seen == old(self).seen,
            final(self).window == old(self).window,
            final(self).anchor == old(self).anchor,
    {
        let ghost m = self@;
        let ghost expected = absorbed(m, piece@);
        let start = if self.tail.len() == 0 && !self.discarding { self.offset } else { self.tail_start };
        let discarding = self.discarding;
        let overflow = next_tail(&mut self.tail, piece, discarding);
        self.tail_start = start;
        self.offset = self.offset + piece.len() as u64;
        self.discarding = self.discarding || overflow;
        self.notices.oversized = self.notices.oversized || overflow;
        assert(self.tail@ == expected.tail);
    }

    /// Takes one piece read from the current offset (up to and including a newline,
    /// or up to the cap); returns a complete record and its offset once one ends.
    pub fn take_piece(&mut self, piece: &[u8]) -> (result: Option<(Vec<u8>, u64)>)
        requires
            old(self).offset + piece@.len() <= u64::MAX,
        ensures
            final(self)@ == pieced(old(self)@, piece@).0,
            match (result, pieced(old(self)@, piece@).1) {
                (Some((bytes, start)), Some((expected, at))) => bytes@ == expected && start == at,
                (None, None) => true,
                _ => false,
            },
            final(self).generated == old(self).generated,
            final(self).open_tools == old(self).open_tools,
            final(self).other_tools == old(self).other_tools,
            final(self).seen == old(self).seen,
            final(self).window == old(self).window,
            final(self).anchor == old(self).anchor,
    {
        self.absorb(piece);
        let count = piece.len();
        let ends = count > 0 && piece[count - 1] == 10u8;
        if ends {
            if !self.discarding {
                let mut bytes: Vec<u8> = Vec::new();
                std::mem::swap(&mut bytes, &mut self.tail);
                assert(self.tail@ =~= Seq::<u8>::empty());
                return Some((bytes, self.tail_start));
            }
            self.discarding = false;
        }
        None
    }

    /// Closes a page: an incomplete last record and hidden activity are noted.
    #[verifier::spinoff_prover]
    pub fn close_page(&mut self)
        ensures
            final(self)@ == (ScanModel {
                notices: Notices {
                    incomplete_tail: old(self)@.notices.incomplete_tail
                        || (old(self)@.offset == old(self)@.anchor_size && old(self)@.tail.len() > 0),
                    hidden: old(self)@.notices.hidden || old(self)@.excluded,
                    ..old(self)@.notices
                },
                ..old(self)@
            }),
            final(self).generated == old(self).generated,
            final(self).open_tools == old(self).open_tools,
            final(self).other_tools == old(self).other_tools,
            final(self).seen == old(self).seen,
            final(self).window == old(self).window,
            final(self).anchor == old(self).anchor,
    {
        if self.offset == self.anchor.size && self.tail.len() > 0 {
            self.notices.incomplete_tail = true;
        }
        if self.excluded {
            self.notices.hidden = true;
        }
    }

    /// More of the source remains for another page.
    pub fn more(&self) -> (result: bool)
        ensures
            result == (!self.finished && self.offset < self.anchor.size),
    {
        !self.finished && self.offset < self.anchor.size
    }

    /// The page covers everything without a notice.
    pub fn complete(&self) -> (result: bool)
        ensures
            result == (!(!self.finished && self.offset < self.anchor.size) && !any_notice(self.notices)),
    {
        !self.more() && self.notices.is_empty()
    }
}

} // verus!
