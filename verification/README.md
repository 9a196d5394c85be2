# codex_usage

Local accounting of Codex token usage, verified with Verus.

The library (`src/`) holds the decisions: where the Codex sessions directory is, which
rollout records count, how non-resetting token streams reconcile into exact deltas, exact integer pricing in
trillionths of a USD, the dashboard and aggregate projections (the quota chart's
segments and boundaries, each model's share of a session's cost), the activity view
of an invocation, quota intervals, CSV rows, identity resolution, retention, the
monitoring coordinator's scheduling and the writer loop's publication throttle, what
applying each decoded record stores, the 256 KiB read budget of a source file, the
Unix and Windows spellings of an absolute directory override, and the ranking and
folding of model, project and turn breakdowns (five leaders, unattributed usage, and
the rest). Every public function states its result in
`requires`/`ensures`; the laws that relate several functions are public proof
functions named `law_*`.

Outside crates are reached only through a few wrappers whose contracts are trusted: RFC 3339 parsing and
civil UTC fields (`time`, in `src/calendar.rs`), SHA-256 (`sha2`, in
`src/storage.rs`), decimal parsing and ordering for the chart's extrema
(`bigdecimal`, in `src/dashboard.rs`), the remaining quota percentage (`bigdecimal`, in
`src/storage/dashboard/range_quota.rs`), and appending a character to a `String`
(`src/text.rs`).

`app/` is ordinary Rust around the library: environment variables, JSON decoding with
`serde`, file reads and digests of source logs, Git administrative lookups, settings directories, and
CSV file delivery.

`tests/` exercises the library on concrete values.
