//! CSV report rows: the fixed vocabulary of states, exact decimal renderings of
//! stored integers, and RFC 4180 field quoting. Reading the snapshot and writing
//! the file happen around these functions.
use crate::aggregates::{attribution, attribution_of, text_of, Category, Tokens};
use crate::text::{
    chars_of, decimal, digits, owned, parse_i128, parsed_i128, push_char, push_i128, push_padded,
    push_str, push_u128, str_eq, views, zero_padded,
};
use crate::identity::{components, components_of};
use crate::weekly::{time_nanos, Cycle, Estimate, Time, Unavailable};
use vstd::prelude::*;

verus! {

/// The report a request asks for.
#[derive(Clone, Copy, Debug, PartialEq, Eq, Structural)]
pub enum Kind {
    Sessions,
    ModelUsage,
    WeeklyCycles,
    ProjectTotals,
}

/// Why an export was refused or failed.
#[derive(Clone, Copy, Debug, PartialEq, Eq, Structural)]
pub enum Error {
    Busy,
    InvalidDestination,
    DestinationExists,
    Write,
    Storage,
}

impl Error {
    /// The sentence shown for this error.
    pub fn message(&self) -> (result: &'static str)
        ensures
            result@ == error_message(*self),
    {
        match self {
            Error::Busy => "Another CSV export is still running",
            Error::InvalidDestination => "Choose an absolute path for a new CSV file",
            Error::DestinationExists => "That file already exists; choose a new filename",
            Error::Write => "The CSV file could not be created or written; check its folder and permissions",
            Error::Storage => "The local usage database could not be read",
        }
    }
}

/// The sentence of each error.
pub open spec fn error_message(error: Error) -> Seq<char> {
    match error {
        Error::Busy => "Another CSV export is still running"@,
        Error::InvalidDestination => "Choose an absolute path for a new CSV file"@,
        Error::DestinationExists => "That file already exists; choose a new filename"@,
        Error::Write => "The CSV file could not be created or written; check its folder and permissions"@,
        Error::Storage => "The local usage database could not be read"@,
    }
}

/// The state of one token category in a row.
pub open spec fn category_state_of(category: Option<Category>) -> Seq<char> {
    match category {
        Some(c) => if c.complete {
            "complete"@
        } else if c.known_tokens is Some {
            "incomplete"@
        } else {
            "unavailable"@
        },
        None => "unavailable"@,
    }
}

/// A category is complete when every accepted observation carries it, incomplete
/// when only some known subtotal exists, and unavailable otherwise.
pub fn category_state(category: Option<&Category>) -> (result: &'static str)
    ensures
        result@ == category_state_of(match category { Some(c) => Some(*c), None => None }),
{
    match category {
        Some(c) => if c.complete {
            "complete"
        } else if c.known_tokens.is_some() {
            "incomplete"
        } else {
            "unavailable"
        },
        None => "unavailable",
    }
}

/// The state of an estimated cost.
pub open spec fn cost_state_of(known: bool, complete: bool, accepted: int) -> Seq<char> {
    if complete {
        "complete"@
    } else if known {
        "incomplete_unpriced_usage"@
    } else if accepted > 0 {
        "unpriced"@
    } else {
        "unavailable"@
    }
}

/// A cost is complete when every accepted observation was priced; a known subtotal
/// beside unpriced usage is incomplete; accepted usage without any price is unpriced.
pub fn cost_state(known: Option<&str>, complete: bool, accepted: i64) -> (result: &'static str)
    ensures
        result@ == cost_state_of(known is Some, complete, accepted as int),
{
    if complete {
        "complete"
    } else if known.is_some() {
        "incomplete_unpriced_usage"
    } else if accepted > 0 {
        "unpriced"
    } else {
        "unavailable"
    }
}

/// The usage state of a row.
pub open spec fn usage_state_of(
    accepted: int,
    incomplete: bool,
    unresolved: bool,
    diagnostics: bool,
    unavailable_sessions: int,
) -> Seq<char> {
    if accepted == 0 {
        "unavailable"@
    } else if incomplete || unresolved || diagnostics || unavailable_sessions > 0 {
        "incomplete"@
    } else {
        "observed"@
    }
}

/// A row without accepted usage is unavailable; any gap (an incomplete session,
/// unresolved usage, a source diagnostic or a session without accepted usage)
/// makes it incomplete.
pub fn usage_state(
    accepted: i64,
    incomplete: bool,
    unresolved: bool,
    diagnostics: bool,
    unavailable_sessions: i64,
) -> (result: &'static str)
    ensures
        result@ == usage_state_of(
            accepted as int,
            incomplete,
            unresolved,
            diagnostics,
            unavailable_sessions as int,
        ),
{
    if accepted == 0 {
        "unavailable"
    } else if incomplete || unresolved || diagnostics || unavailable_sessions > 0 {
        "incomplete"
    } else {
        "observed"
    }
}

/// One trillion: the stored amounts are integer trillionths of a USD.
pub const TRILLION: i128 = 1_000_000_000_000;

/// A non-negative amount of trillionths rendered as USD with twelve decimals.
pub open spec fn usd_text(amount: int) -> Seq<char> {
    decimal(amount / 1_000_000_000_000) + seq!['.'] + zero_padded(
        (amount % 1_000_000_000_000) as nat,
        12,
    )
}

/// The rendering of a stored amount: empty when absent; `None` when the stored
/// text is not a canonical non-negative integer.
pub open spec fn usd_of(amount: Option<Seq<char>>) -> Option<Seq<char>> {
    match amount {
        None => Some(Seq::empty()),
        Some(encoded) => match parsed_i128(encoded) {
            Some(a) => if a >= 0 && decimal(a as int) == encoded {
                Some(usd_text(a as int))
            } else {
                None
            },
            None => None,
        },
    }
}

/// Renders a stored subtotal as USD; a stored value that is not canonical is a
/// storage fault.
pub fn usd(amount: Option<&str>) -> (result: Result<String, Error>)
    ensures
        match usd_of(match amount { Some(a) => Some(a@), None => None }) {
            Some(text) => result matches Ok(s) && s@ == text,
            None => result == Err::<String, Error>(Error::Storage),
        },
{
    match amount {
        None => Ok(String::new()),
        Some(encoded) => {
            let amount = match parse_i128(encoded) {
                Some(a) => a,
                None => return Err(Error::Storage),
            };
            if amount < 0 {
                return Err(Error::Storage);
            }
            let canonical = crate::text::i128_text(amount);
            if !str_eq(canonical.as_str(), encoded) {
                return Err(Error::Storage);
            }
            let mut text = String::new();
            push_i128(&mut text, amount / TRILLION);
            push_char(&mut text, '.');
            push_padded(&mut text, (amount % TRILLION) as u128, 12);
            assert(text@ =~= usd_text(amount as int));
            Ok(text)
        },
    }
}

/// Signed seconds since the epoch with nine decimals.
pub open spec fn unix_text(nanos: int) -> Seq<char> {
    let magnitude: nat = if nanos < 0 { (-nanos) as nat } else { nanos as nat };
    (if nanos < 0 { seq!['-'] } else { Seq::empty() }) + digits(magnitude / 1_000_000_000)
        + seq!['.'] + zero_padded(magnitude % 1_000_000_000, 9)
}

/// An instant as decimal Unix seconds with nanosecond precision; an instant less
/// than a second before the epoch keeps its sign.
pub fn unix_seconds(time: Time) -> (result: String)
    ensures
        result@ == unix_text(time_nanos(time)),
{
    let nanos: i128 = time.seconds as i128 * 1_000_000_000 + time.nanos as i128;
    let magnitude: u128 = if nanos < 0 { (-nanos) as u128 } else { nanos as u128 };
    let mut text = String::new();
    if nanos < 0 {
        push_char(&mut text, '-');
    }
    push_u128(&mut text, magnitude / 1_000_000_000);
    push_char(&mut text, '.');
    push_padded(&mut text, magnitude % 1_000_000_000, 9);
    assert(text@ =~= unix_text(time_nanos(time)));
    text
}

/// The token category at a position of the fixed column order.
pub open spec fn category_at(tokens: Tokens, index: int) -> Category {
    if index == 0 {
        tokens.total_tokens
    } else if index == 1 {
        tokens.input_tokens
    } else if index == 2 {
        tokens.cached_input_tokens
    } else if index == 3 {
        tokens.cache_write_tokens
    } else if index == 4 {
        tokens.output_tokens
    } else {
        tokens.reasoning_tokens
    }
}

/// The column name of a token category.
pub open spec fn category_name(index: int) -> Seq<char> {
    if index == 0 {
        "total_tokens"@
    } else if index == 1 {
        "input_tokens"@
    } else if index == 2 {
        "cached_input_tokens"@
    } else if index == 3 {
        "cache_write_tokens"@
    } else if index == 4 {
        "output_tokens"@
    } else {
        "reasoning_tokens"@
    }
}

/// The number of token categories in a row.
pub const CATEGORY_COUNT: usize = 6;

/// The token headers: a subtotal and a state column for each category in order.
pub open spec fn token_header_names() -> Seq<Seq<char>> {
    Seq::new(
        12,
        |j: int|
            if j % 2 == 0 {
                category_name(j / 2) + "_known_subtotal"@
            } else {
                category_name(j / 2) + "_state"@
            },
    )
}

/// The token fields: each category's known subtotal (empty when absent) and state.
pub open spec fn token_value_fields(tokens: Option<Tokens>) -> Seq<Seq<char>> {
    Seq::new(
        12,
        |j: int|
            {
                let category = match tokens {
                    Some(t) => Some(category_at(t, j / 2)),
                    None => None,
                };
                if j % 2 == 0 {
                    match category {
                        Some(c) => match c.known_tokens {
                            Some(k) => k@,
                            None => Seq::empty(),
                        },
                        None => Seq::empty(),
                    }
                } else {
                    category_state_of(category)
                }
            },
    )
}

fn category_column(index: usize) -> (result: &'static str)
    requires
        index < CATEGORY_COUNT,
    ensures
        result@ == category_name(index as int),
{
    if index == 0 {
        "total_tokens"
    } else if index == 1 {
        "input_tokens"
    } else if index == 2 {
        "cached_input_tokens"
    } else if index == 3 {
        "cache_write_tokens"
    } else if index == 4 {
        "output_tokens"
    } else {
        "reasoning_tokens"
    }
}

fn category_ref(tokens: &Tokens, index: usize) -> (result: &Category)
    requires
        index < CATEGORY_COUNT,
    ensures
        *result == category_at(*tokens, index as int),
{
    if index == 0 {
        &tokens.total_tokens
    } else if index == 1 {
        &tokens.input_tokens
    } else if index == 2 {
        &tokens.cached_input_tokens
    } else if index == 3 {
        &tokens.cache_write_tokens
    } else if index == 4 {
        &tokens.output_tokens
    } else {
        &tokens.reasoning_tokens
    }
}

/// Appends the twelve token column headers.
pub fn token_headers(fields: &mut Vec<String>)
    ensures
        views(final(fields)@) == views(old(fields)@) + token_header_names(),
{
    let mut index: usize = 0;
    while index < CATEGORY_COUNT
        invariant
            index <= CATEGORY_COUNT,
            views(fields@) == views(old(fields)@) + token_header_names().take(2 * index as int),
        decreases CATEGORY_COUNT - index,
    {
        let name = category_column(index);
        let mut subtotal = owned(name);
        push_str(&mut subtotal, "_known_subtotal");
        let mut state = owned(name);
        push_str(&mut state, "_state");
        let ghost before = views(fields@);
        fields.push(subtotal);
        fields.push(state);
        proof {
            let names = token_header_names();
            let k = 2 * index as int;
            assert(views(fields@) =~= before.push(subtotal@).push(state@));
            assert(names[k] == category_name(index as int) + "_known_subtotal"@);
            assert(names[k + 1] == category_name(index as int) + "_state"@);
            assert(names.take(k + 2) =~= names.take(k).push(names[k]).push(names[k + 1]));
        }
        index = index + 1;
    }
    assert(token_header_names().take(12) =~= token_header_names());
}

/// Appends the twelve token fields of a row; without tokens every subtotal is
/// empty and every state unavailable.
pub fn token_values(fields: &mut Vec<String>, tokens: Option<&Tokens>)
    ensures
        views(final(fields)@) == views(old(fields)@) + token_value_fields(
            match tokens { Some(t) => Some(*t), None => None },
        ),
{
    let ghost spec_tokens = match tokens {
        Some(t) => Some(*t),
        None => None::<Tokens>,
    };
    let mut index: usize = 0;
    while index < CATEGORY_COUNT
        invariant
            index <= CATEGORY_COUNT,
            spec_tokens == match tokens { Some(t) => Some(*t), None => None },
            views(fields@) == views(old(fields)@) + token_value_fields(spec_tokens).take(
                2 * index as int,
            ),
        decreases CATEGORY_COUNT - index,
    {
        let category = match tokens {
            Some(t) => Some(category_ref(t, index)),
            None => None,
        };
        let subtotal = match category {
            Some(c) => match &c.known_tokens {
                Some(k) => k.clone(),
                None => String::new(),
            },
            None => String::new(),
        };
        let state = owned(category_state(category));
        let ghost before = views(fields@);
        fields.push(subtotal);
        fields.push(state);
        proof {
            let values = token_value_fields(spec_tokens);
            let k = 2 * index as int;
            assert(views(fields@) =~= before.push(subtotal@).push(state@));
            assert(values[k] == subtotal@);
            assert(values[k + 1] == state@);
            assert(values.take(k + 2) =~= values.take(k).push(values[k]).push(values[k + 1]));
        }
        index = index + 1;
    }
    assert(token_value_fields(spec_tokens).take(12) =~= token_value_fields(spec_tokens));
}

/// A character that forces a field into quotes.
pub open spec fn special(c: char) -> bool {
    c == ',' || c == '"' || c == '\r' || c == '\n'
}

/// True when the field holds a comma, a quote, or a line break.
pub open spec fn needs_quotes(field: Seq<char>) -> bool {
    exists|k: int| 0 <= k < field.len() && special(#[trigger] field[k])
}

/// The field with every quote doubled.
pub open spec fn doubled(field: Seq<char>) -> Seq<char>
    decreases field.len(),
{
    if field.len() == 0 {
        Seq::empty()
    } else {
        doubled(field.drop_last()) + if field.last() == '"' {
            seq!['"', '"']
        } else {
            seq![field.last()]
        }
    }
}

/// One CSV field: as it is, or quoted with its quotes doubled.
pub open spec fn csv_field(field: Seq<char>) -> Seq<char> {
    if needs_quotes(field) {
        seq!['"'] + doubled(field) + seq!['"']
    } else {
        field
    }
}

/// The fields joined by commas.
pub open spec fn csv_fields(fields: Seq<Seq<char>>) -> Seq<char>
    decreases fields.len(),
{
    if fields.len() == 0 {
        Seq::empty()
    } else if fields.len() == 1 {
        csv_field(fields[0])
    } else {
        csv_fields(fields.drop_last()) + seq![','] + csv_field(fields.last())
    }
}

/// One CSV record, ended by CR LF.
pub open spec fn csv_line(fields: Seq<Seq<char>>) -> Seq<char> {
    csv_fields(fields) + seq!['\r', '\n']
}

fn push_field(out: &mut String, field: &str)
    ensures
        final(out)@ == old(out)@ + csv_field(field@),
{
    let chars = chars_of(field);
    let mut quote = false;
    let mut j: usize = 0;
    while j < chars.len()
        invariant
            j <= chars@.len(),
            chars@ == field@,
            quote == exists|k: int| 0 <= k < j && special(#[trigger] field@[k]),
        decreases chars@.len() - j,
    {
        let c = chars[j];
        if c == ',' || c == '"' || c == '\r' || c == '\n' {
            quote = true;
        }
        j = j + 1;
    }
    if !quote {
        push_str(out, field);
        return;
    }
    push_char(out, '"');
    let mut j: usize = 0;
    while j < chars.len()
        invariant
            j <= chars@.len(),
            chars@ == field@,
            out@ == old(out)@ + seq!['"'] + doubled(field@.take(j as int)),
        decreases chars@.len() - j,
    {
        let c = chars[j];
        if c == '"' {
            push_char(out, '"');
            push_char(out, '"');
        } else {
            push_char(out, c);
        }
        assert(field@.take(j + 1).drop_last() =~= field@.take(j as int));
        assert(out@ =~= old(out)@ + seq!['"'] + doubled(field@.take(j + 1)));
        j = j + 1;
    }
    push_char(out, '"');
    assert(field@.take(chars@.len() as int) =~= field@);
    assert(out@ =~= old(out)@ + csv_field(field@));
}

/// One CSV record: fields joined by commas, those holding a comma, quote or line
/// break quoted with their quotes doubled, ended by CR LF.
pub fn csv_row(fields: &[String]) -> (result: String)
    ensures
        result@ == csv_line(views(fields@)),
{
    let mut out = String::new();
    let mut i: usize = 0;
    while i < fields.len()
        invariant
            i <= fields@.len(),
            out@ == csv_fields(views(fields@).take(i as int)),
        decreases fields@.len() - i,
    {
        if i > 0 {
            push_char(&mut out, ',');
        }
        push_field(&mut out, fields[i].as_str());
        assert(views(fields@).take(i + 1).drop_last() =~= views(fields@).take(i as int));
        assert(out@ =~= csv_fields(views(fields@).take(i + 1)));
        i = i + 1;
    }
    assert(views(fields@).take(fields@.len() as int) =~= views(fields@));
    push_char(&mut out, '\r');
    push_char(&mut out, '\n');
    out
}

/// The note closing every usage row.
pub open spec fn usage_note() -> Seq<char> {
    "Locally observed accepted direct usage; each session counted once. Cached input and reasoning overlap other categories; do not add categories. Estimated token cost is not an actual charge."@
}

fn usage_note_text() -> (result: &'static str)
    ensures
        result@ == usage_note(),
{
    "Locally observed accepted direct usage; each session counted once. Cached input and reasoning overlap other categories; do not add categories. Estimated token cost is not an actual charge."
}

/// The first column of a usage report.
pub open spec fn usage_label_of(kind: Kind) -> Seq<char> {
    match kind {
        Kind::Sessions => "session_id"@,
        Kind::ProjectTotals => "project_id"@,
        _ => "model_id"@,
    }
}

/// The SQL expression a usage report groups by, and its first column's name.
pub fn usage_grouping(kind: Kind) -> (result: (&'static str, &'static str))
    requires
        kind != Kind::WeeklyCycles,
    ensures
        result.1@ == usage_label_of(kind),
        kind == Kind::Sessions ==> result.0@ == "s.thread_id"@,
        kind == Kind::ProjectTotals ==> result.0@ == "s.project_id"@,
        kind == Kind::ModelUsage ==> result.0@
            == "CASE WHEN o.model IS NULL THEN 'unknown:' ELSE 'model:' || o.model END"@,
{
    match kind {
        Kind::Sessions => ("s.thread_id", "session_id"),
        Kind::ProjectTotals => ("s.project_id", "project_id"),
        _ => ("CASE WHEN o.model IS NULL THEN 'unknown:' ELSE 'model:' || o.model END", "model_id"),
    }
}

/// The header of a usage report.
pub open spec fn usage_header_names(kind: Kind) -> Seq<Seq<char>> {
    seq![usage_label_of(kind), "attribution_basis"@, "attribution_value"@] + (if kind
        == Kind::Sessions {
        seq!["project_id"@, "project_basis"@, "project_value"@]
    } else {
        Seq::empty()
    }) + seq![
        "usage_scope"@,
        "observed_sessions"@,
        "unavailable_sessions"@,
        "accepted_observations"@,
        "usage_state"@,
        "unresolved_usage"@,
        "source_diagnostics"@,
    ] + token_header_names() + seq![
        "estimated_cost_known_subtotal_usd"@,
        "estimated_cost_state"@,
        "coverage_note"@,
    ]
}

fn push_all(fields: &mut Vec<String>, names: &[&str])
    ensures
        views(final(fields)@) == views(old(fields)@) + names@.map_values(|n: &str| n@),
{
    let mut i: usize = 0;
    while i < names.len()
        invariant
            i <= names@.len(),
            views(fields@) == views(old(fields)@) + names@.map_values(|n: &str| n@).take(
                i as int,
            ),
        decreases names@.len() - i,
    {
        let ghost before = views(fields@);
        fields.push(owned(names[i]));
        assert(views(fields@) =~= before.push(names@[i as int]@));
        assert(names@.map_values(|n: &str| n@).take(i + 1) =~= names@.map_values(
            |n: &str| n@,
        ).take(i as int).push(names@[i as int]@));
        i = i + 1;
    }
    assert(names@.map_values(|n: &str| n@).take(names@.len() as int) =~= names@.map_values(
        |n: &str| n@,
    ));
}

/// The header row of a usage report.
pub fn usage_headers(kind: Kind) -> (result: Vec<String>)
    requires
        kind != Kind::WeeklyCycles,
    ensures
        views(result@) == usage_header_names(kind),
{
    let (_, label) = usage_grouping(kind);
    let mut headers: Vec<String> = Vec::new();
    push_all(&mut headers, &[label, "attribution_basis", "attribution_value"]);
    if kind == Kind::Sessions {
        push_all(&mut headers, &["project_id", "project_basis", "project_value"]);
    }
    push_all(
        &mut headers,
        &[
            "usage_scope",
            "observed_sessions",
            "unavailable_sessions",
            "accepted_observations",
            "usage_state",
            "unresolved_usage",
            "source_diagnostics",
        ],
    );
    token_headers(&mut headers);
    push_all(
        &mut headers,
        &["estimated_cost_known_subtotal_usd", "estimated_cost_state", "coverage_note"],
    );
    assert(views(headers@) =~= usage_header_names(kind));
    headers
}

/// `true` or `false`, as std writes a `bool`.
pub open spec fn bool_text(value: bool) -> Seq<char> {
    if value {
        "true"@
    } else {
        "false"@
    }
}

/// An optional text, empty when absent.
pub open spec fn or_empty(value: Option<Seq<char>>) -> Seq<char> {
    match value {
        Some(v) => v,
        None => Seq::empty(),
    }
}

/// The identifying fields of a usage row: a session names its project; a project
/// or model names how its identity was established.
pub open spec fn identity_fields(kind: Kind, id: Seq<char>, project: Seq<char>) -> Seq<Seq<char>> {
    if kind == Kind::Sessions {
        seq![
            id,
            "observed_session"@,
            Seq::empty(),
            project,
            attribution_of(project).0,
            or_empty(attribution_of(project).1),
        ]
    } else {
        seq![id, attribution_of(id).0, or_empty(attribution_of(id).1)]
    }
}

/// The counts and states of one grouped usage row, as read from the snapshot.
#[derive(Clone, Debug)]
pub struct UsageCounts {
    pub observed_sessions: i64,
    pub accepted: i64,
    pub incomplete: bool,
    pub unresolved: bool,
    pub diagnostics: bool,
    pub sessions_with_usage: i64,
    pub valued: i64,
}

/// The fields of a usage row, or `None` when the stored subtotal is not canonical.
pub open spec fn usage_row_of(
    kind: Kind,
    id: Seq<char>,
    project: Seq<char>,
    counts: UsageCounts,
    tokens: Tokens,
    amount: Option<Seq<char>>,
) -> Option<Seq<Seq<char>>> {
    match usd_of(amount) {
        None => None,
        Some(usd) => {
            let unavailable = counts.observed_sessions - counts.sessions_with_usage;
            Some(
                identity_fields(kind, id, project) + seq![
                    "direct"@,
                    decimal(counts.observed_sessions as int),
                    decimal(unavailable),
                    decimal(counts.accepted as int),
                    usage_state_of(
                        counts.accepted as int,
                        counts.incomplete,
                        counts.unresolved,
                        counts.diagnostics,
                        unavailable,
                    ),
                    bool_text(counts.unresolved),
                    bool_text(counts.diagnostics),
                ] + token_value_fields(Some(tokens)) + seq![
                    usd,
                    cost_state_of(
                        amount is Some,
                        counts.accepted > 0 && counts.accepted == counts.valued,
                        counts.accepted as int,
                    ),
                    usage_note(),
                ],
            )
        },
    }
}

fn bool_string(value: bool) -> (result: String)
    ensures
        result@ == bool_text(value),
{
    if value {
        owned("true")
    } else {
        owned("false")
    }
}

/// One usage row; a stored subtotal that is not canonical is a storage fault.
pub fn usage_row(
    kind: Kind,
    id: String,
    project: String,
    counts: &UsageCounts,
    tokens: &Tokens,
    amount: Option<String>,
) -> (result: Result<Vec<String>, Error>)
    requires
        kind != Kind::WeeklyCycles,
        i64::MIN <= counts.observed_sessions - counts.sessions_with_usage <= i64::MAX,
    ensures
        match usage_row_of(kind, id@, project@, *counts, *tokens, text_of(amount)) {
            Some(fields) => result matches Ok(v) && views(v@) == fields,
            None => result == Err::<Vec<String>, Error>(Error::Storage),
        },
{
    let usd_text = match &amount {
        Some(a) => usd(Some(a.as_str())),
        None => usd(None),
    };
    let usd_text = match usd_text {
        Ok(t) => t,
        Err(e) => return Err(e),
    };
    let ghost id_view = id@;
    let ghost project_view = project@;
    let mut fields: Vec<String> = Vec::new();
    if kind == Kind::Sessions {
        let place = attribution(project);
        fields.push(id);
        fields.push(owned("observed_session"));
        fields.push(String::new());
        fields.push(place.id);
        fields.push(place.basis);
        fields.push(match place.value {
            Some(v) => v,
            None => String::new(),
        });
    } else {
        let place = attribution(id);
        fields.push(place.id);
        fields.push(place.basis);
        fields.push(match place.value {
            Some(v) => v,
            None => String::new(),
        });
    }
    assert(views(fields@) =~= identity_fields(kind, id_view, project_view));
    let unavailable = counts.observed_sessions - counts.sessions_with_usage;
    let ghost before = views(fields@);
    fields.push(owned("direct"));
    fields.push(crate::text::i128_text(counts.observed_sessions as i128));
    fields.push(crate::text::i128_text(unavailable as i128));
    fields.push(crate::text::i128_text(counts.accepted as i128));
    fields.push(
        owned(
            usage_state(
                counts.accepted,
                counts.incomplete,
                counts.unresolved,
                counts.diagnostics,
                unavailable,
            ),
        ),
    );
    fields.push(bool_string(counts.unresolved));
    fields.push(bool_string(counts.diagnostics));
    let ghost middle = views(fields@);
    token_values(&mut fields, Some(tokens));
    let complete = counts.accepted > 0 && counts.accepted == counts.valued;
    let state = match &amount {
        Some(a) => cost_state(Some(a.as_str()), complete, counts.accepted),
        None => cost_state(None, complete, counts.accepted),
    };
    let ghost after_tokens = views(fields@);
    fields.push(usd_text);
    fields.push(owned(state));
    fields.push(owned(usage_note_text()));
    proof {
        let counts_fields = seq![
            "direct"@,
            decimal(counts.observed_sessions as int),
            decimal(unavailable as int),
            decimal(counts.accepted as int),
            usage_state_of(
                counts.accepted as int,
                counts.incomplete,
                counts.unresolved,
                counts.diagnostics,
                unavailable as int,
            ),
            bool_text(counts.unresolved),
            bool_text(counts.diagnostics),
        ];
        assert(middle =~= before + counts_fields);
        assert(views(fields@) =~= after_tokens + seq![
            usd_of(text_of(amount))->0,
            cost_state_of(amount is Some, complete, counts.accepted as int),
            usage_note(),
        ]);
    }
    Ok(fields)
}

/// The header of the weekly cycle report.
pub open spec fn weekly_header_names() -> Seq<Seq<char>> {
    seq![
        "cycle_key"@,
        "cycle_state"@,
        "usage_scope"@,
        "first_observed_unix_seconds"@,
        "last_observed_unix_seconds"@,
        "first_used_percent"@,
        "last_used_percent"@,
        "last_remaining_percent"@,
        "resets_at_unix_seconds"@,
        "detected_reset"@,
        "ambiguous_observations"@,
        "full_cycle_cost_state"@,
        "interval_start_exclusive_unix_seconds"@,
        "interval_end_inclusive_unix_seconds"@,
        "consumed_percentage_points"@,
        "estimated_cost_known_subtotal_usd"@,
        "estimated_cost_state"@,
        "observed_usd_per_percentage_point"@,
        "estimated_full_week_usd"@,
        "estimate_state"@,
    ] + token_header_names() + seq!["coverage_note"@]
}

/// The header row of the weekly cycle report.
pub fn weekly_headers() -> (result: Vec<String>)
    ensures
        views(result@) == weekly_header_names(),
{
    let mut headers: Vec<String> = Vec::new();
    push_all(
        &mut headers,
        &[
            "cycle_key",
            "cycle_state",
            "usage_scope",
            "first_observed_unix_seconds",
            "last_observed_unix_seconds",
            "first_used_percent",
            "last_used_percent",
            "last_remaining_percent",
            "resets_at_unix_seconds",
            "detected_reset",
            "ambiguous_observations",
            "full_cycle_cost_state",
            "interval_start_exclusive_unix_seconds",
            "interval_end_inclusive_unix_seconds",
            "consumed_percentage_points",
            "estimated_cost_known_subtotal_usd",
            "estimated_cost_state",
            "observed_usd_per_percentage_point",
            "estimated_full_week_usd",
            "estimate_state",
        ],
    );
    token_headers(&mut headers);
    push_all(&mut headers, &["coverage_note"]);
    assert(views(headers@) =~= weekly_header_names());
    headers
}

/// The state of a weekly estimate.
pub open spec fn estimate_state_of(reason: Option<Unavailable>) -> Seq<char> {
    match reason {
        None => "available"@,
        Some(Unavailable::InsufficientObservations) => "insufficient_observations"@,
        Some(Unavailable::AmbiguousObservation) => "ambiguous_observation"@,
        Some(Unavailable::BelowOnePercentagePoint) => "below_one_percentage_point"@,
        Some(Unavailable::UnpricedUsage) => "unpriced_usage"@,
    }
}

/// An estimate is available unless it names why not.
pub fn estimate_state(reason: Option<Unavailable>) -> (result: &'static str)
    ensures
        result@ == estimate_state_of(reason),
{
    match reason {
        None => "available",
        Some(Unavailable::InsufficientObservations) => "insufficient_observations",
        Some(Unavailable::AmbiguousObservation) => "ambiguous_observation",
        Some(Unavailable::BelowOnePercentagePoint) => "below_one_percentage_point",
        Some(Unavailable::UnpricedUsage) => "unpriced_usage",
    }
}

/// The note closing every weekly row.
pub open spec fn weekly_note() -> Seq<char> {
    "Observed local estimated token cost for the comparable interval only; newer unmatched usage and unobserved account usage are excluded. Full-cycle cost and session weekly percentage impact are unavailable. Token categories overlap; do not add categories."@
}

fn weekly_note_text() -> (result: &'static str)
    ensures
        result@ == weekly_note(),
{
    "Observed local estimated token cost for the comparable interval only; newer unmatched usage and unobserved account usage are excluded. Full-cycle cost and session weekly percentage impact are unavailable. Token categories overlap; do not add categories."
}

/// An optional instant as Unix seconds, empty when absent.
pub open spec fn unix_or_empty(time: Option<Time>) -> Seq<char> {
    match time {
        Some(t) => unix_text(time_nanos(t)),
        None => Seq::empty(),
    }
}

/// The known subtotal of an optional cost.
pub open spec fn known_of(estimate: Estimate) -> Option<Seq<char>> {
    match estimate.estimated_cost {
        Some(c) => text_of(c.known_subtotal),
        None => None,
    }
}

/// The fields of a weekly cycle row, or `None` when the stored subtotal is not
/// canonical.
pub open spec fn cycle_row_of(
    cycle: Cycle,
    state: Seq<char>,
    estimate: Estimate,
    tokens: Option<Tokens>,
) -> Option<Seq<Seq<char>>> {
    match usd_of(known_of(estimate)) {
        None => None,
        Some(usd) => Some(
            seq![
                cycle.key@,
                state,
                "global_direct_comparable_interval"@,
                unix_text(time_nanos(cycle.first_observation.time)),
                unix_text(time_nanos(cycle.last_observation.time)),
                cycle.first_observation.used_percent@,
                cycle.last_observation.used_percent@,
                cycle.last_observation.remaining_percent@,
                match cycle.last_observation.resets_at {
                    Some(r) => decimal(r as int),
                    None => Seq::empty(),
                },
                bool_text(cycle.detected_reset),
                bool_text(cycle.has_ambiguous_observations),
                if cycle.full_cycle_cost_known {
                    "complete"@
                } else {
                    "unavailable"@
                },
                unix_or_empty(estimate.start),
                unix_or_empty(estimate.end),
                or_empty(text_of(estimate.consumed_percentage_points)),
                usd,
                cost_state_of(
                    known_of(estimate) is Some,
                    match estimate.estimated_cost {
                        Some(c) => c.complete,
                        None => false,
                    },
                    match estimate.estimated_cost {
                        Some(c) => (c.accepted_observations as i64) as int,
                        None => 0,
                    },
                ),
                or_empty(text_of(estimate.effective_usd_per_percent)),
                or_empty(text_of(estimate.estimated_full_week_usd)),
                estimate_state_of(estimate.unavailable_reason),
            ] + token_value_fields(tokens) + seq![weekly_note()],
        ),
    }
}

fn text_or_empty(value: &Option<String>) -> (result: String)
    ensures
        result@ == or_empty(text_of(*value)),
{
    match value {
        Some(v) => v.clone(),
        None => String::new(),
    }
}

fn unix_or_blank(time: Option<Time>) -> (result: String)
    ensures
        result@ == unix_or_empty(time),
{
    match time {
        Some(t) => unix_seconds(t),
        None => String::new(),
    }
}

/// One weekly cycle row; a stored subtotal that is not canonical is a storage fault.
pub fn cycle_row(
    cycle: &Cycle,
    state: &str,
    estimate: &Estimate,
    tokens: Option<&Tokens>,
) -> (result: Result<Vec<String>, Error>)
    ensures
        match cycle_row_of(
            *cycle,
            state@,
            *estimate,
            match tokens { Some(t) => Some(*t), None => None },
        ) {
            Some(fields) => result matches Ok(v) && views(v@) == fields,
            None => result == Err::<Vec<String>, Error>(Error::Storage),
        },
{
    let known: Option<&str> = match &estimate.estimated_cost {
        Some(c) => match &c.known_subtotal {
            Some(k) => Some(k.as_str()),
            None => None,
        },
        None => None,
    };
    let usd_text = match usd(known) {
        Ok(t) => t,
        Err(e) => return Err(e),
    };
    let (complete, accepted) = match &estimate.estimated_cost {
        Some(c) => (c.complete, c.accepted_observations as i64),
        None => (false, 0i64),
    };
    let mut fields: Vec<String> = Vec::new();
    fields.push(cycle.key.clone());
    fields.push(owned(state));
    fields.push(owned("global_direct_comparable_interval"));
    fields.push(unix_seconds(cycle.first_observation.time));
    fields.push(unix_seconds(cycle.last_observation.time));
    fields.push(cycle.first_observation.used_percent.clone());
    fields.push(cycle.last_observation.used_percent.clone());
    fields.push(cycle.last_observation.remaining_percent.clone());
    fields.push(match cycle.last_observation.resets_at {
        Some(r) => crate::text::i128_text(r as i128),
        None => String::new(),
    });
    fields.push(bool_string(cycle.detected_reset));
    fields.push(bool_string(cycle.has_ambiguous_observations));
    fields.push(owned(if cycle.full_cycle_cost_known { "complete" } else { "unavailable" }));
    fields.push(unix_or_blank(estimate.start));
    fields.push(unix_or_blank(estimate.end));
    fields.push(text_or_empty(&estimate.consumed_percentage_points));
    fields.push(usd_text);
    fields.push(owned(cost_state(known, complete, accepted)));
    fields.push(text_or_empty(&estimate.effective_usd_per_percent));
    fields.push(text_or_empty(&estimate.estimated_full_week_usd));
    fields.push(owned(estimate_state(estimate.unavailable_reason)));
    let ghost head = views(fields@);
    token_values(&mut fields, tokens);
    fields.push(owned(weekly_note_text()));
    proof {
        let spec_tokens = match tokens {
            Some(t) => Some(*t),
            None => None::<Tokens>,
        };
        assert(views(fields@) =~= head + token_value_fields(spec_tokens) + seq![weekly_note()]);
    }
    Ok(fields)
}

/// Whether a character is the ASCII letter `lower` in either case.
pub open spec fn letter(c: char, lower: char) -> bool {
    c == lower || c as int == lower as int - 32
}

/// Whether a file name's extension is `csv` in any ASCII case: the text after its
/// last dot, which must not be its first character.
pub open spec fn csv_name(name: Seq<char>) -> bool {
    &&& name.len() >= 5
    &&& name[name.len() - 4] == '.'
    &&& letter(name[name.len() - 3], 'c')
    &&& letter(name[name.len() - 2], 's')
    &&& letter(name[name.len() - 1], 'v')
}

/// A destination is an absolute path whose final component is a file name with a
/// `csv` extension.
pub open spec fn valid_destination_of(destination: Seq<char>) -> bool {
    &&& destination.len() > 0
    &&& destination[0] == '/'
    &&& components_of(destination).len() > 0
    &&& csv_name(components_of(destination).last())
}

/// Whether a destination may receive a new CSV report.
pub fn valid_destination(destination: &str) -> (result: bool)
    ensures
        result == valid_destination_of(destination@),
{
    let n = destination.unicode_len();
    if n == 0 || destination.get_char(0) != '/' {
        return false;
    }
    let parts = components(destination);
    if parts.len() == 0 {
        return false;
    }
    let name = parts[parts.len() - 1].as_str();
    assert(name@ == components_of(destination@).last());
    let m = name.unicode_len();
    if m < 5 {
        return false;
    }
    let dot = name.get_char(m - 4);
    let c = name.get_char(m - 3);
    let s = name.get_char(m - 2);
    let v = name.get_char(m - 1);
    dot == '.' && (c == 'c' || c == 'C') && (s == 's' || s == 'S') && (v == 'v' || v == 'V')
}

/// A finished export: the new file and how many rows it holds.
#[derive(Clone, Debug, PartialEq, Eq)]
pub struct Outcome {
    pub path: String,
    pub row_count: u64,
}

/// A quoted field's inner text with each doubled quote read as one quote.
pub open spec fn undoubled(text: Seq<char>) -> Seq<char>
    decreases text.len(),
{
    if text.len() == 0 {
        Seq::empty()
    } else if text.len() >= 2 && text.last() == '"' && text[text.len() - 2] == '"' {
        undoubled(text.subrange(0, text.len() - 2)).push('"')
    } else {
        undoubled(text.drop_last()).push(text.last())
    }
}

/// How a CSV reader reads one field: a quoted field loses its quotes and its
/// doubled quotes; any other field is read as it stands.
pub open spec fn read_field(text: Seq<char>) -> Seq<char> {
    if text.len() >= 2 && text[0] == '"' {
        undoubled(text.subrange(1, text.len() - 1))
    } else {
        text
    }
}

proof fn lemma_undoubled_doubled(field: Seq<char>)
    ensures
        undoubled(doubled(field)) == field,
    decreases field.len(),
{
    if field.len() > 0 {
        let init = field.drop_last();
        lemma_undoubled_doubled(init);
        let d = doubled(field);
        if field.last() == '"' {
            assert(d.subrange(0, d.len() - 2) =~= doubled(init));
        } else {
            assert(d.drop_last() =~= doubled(init));
        }
        assert(field =~= init.push(field.last()));
    }
}

/// Every field reads back exactly: quoting and quote doubling lose nothing, so
/// commas, quotes, line breaks and any other characters survive a CSV reader.
pub proof fn law_csv_field_reads_back(field: Seq<char>)
    ensures
        read_field(csv_field(field)) == field,
{
    if needs_quotes(field) {
        let q = csv_field(field);
        assert(q.subrange(1, q.len() - 1) =~= doubled(field));
        lemma_undoubled_doubled(field);
    } else {
        if field.len() >= 2 && field[0] == '"' {
            assert(special(field[0]));
        }
    }
}


/// A usage row's state: without accepted usage it is unavailable; with accepted usage,
/// any gap (an incomplete session, unresolved usage, a source diagnostic or a session
/// without accepted usage) makes it incomplete; it is observed only when usage was
/// accepted and no gap is flagged.
pub proof fn law_gaps_make_usage_incomplete(
    accepted: int,
    incomplete: bool,
    unresolved: bool,
    diagnostics: bool,
    unavailable_sessions: int,
)
    ensures
        ({
            let state = usage_state_of(accepted, incomplete, unresolved, diagnostics, unavailable_sessions);
            &&& accepted == 0 ==> state == "unavailable"@
            &&& accepted != 0 && incomplete ==> state == "incomplete"@
            &&& accepted != 0 && unresolved ==> state == "incomplete"@
            &&& accepted != 0 && diagnostics ==> state == "incomplete"@
            &&& accepted != 0 && unavailable_sessions > 0 ==> state == "incomplete"@
            &&& state == "observed"@ <==> (accepted != 0 && !incomplete && !unresolved && !diagnostics
                && unavailable_sessions <= 0)
        }),
{
    reveal_strlit("unavailable");
    reveal_strlit("incomplete");
    reveal_strlit("observed");
    assert("observed"@ != "incomplete"@) by {
        assert("observed"@[0] != "incomplete"@[0]);
    }
    assert("observed"@ != "unavailable"@) by {
        assert("observed"@[0] != "unavailable"@[0]);
    }
}

} // verus!
