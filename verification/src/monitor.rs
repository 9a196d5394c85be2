//! The monitoring coordinator's decisions: bounded cooperative units of directory
//! discovery, file batches, promotion and source sweeps. Watcher events and the
//! results of each unit arrive as plain values; walking directories, reading files
//! and querying the store happen around these functions.
use crate::identity::{components, components_of};
use crate::source::{is_rollout, is_rollout_of, normalized_of, normalized_path};
use crate::text::{decimal, owned, push_str, push_u128, str_eq, views};
use vstd::prelude::*;

verus! {

/// Paths queued for reading, and paths waiting out their debounce, at most.
pub const QUEUE_LIMIT: usize = 512;

/// Milliseconds a rollout waits after its first change before it is read.
pub const DEBOUNCE_MS: u64 = 75;

/// Discovery passes waiting at most.
pub const MAX_DISCOVERIES: usize = 8;

/// Rows of one sweep page.
pub const SWEEP_PAGE: usize = 64;

/// The kind of a watcher event.
#[derive(Clone, Copy, Debug, PartialEq, Eq, Structural)]
pub enum EventKind {
    Access,
    Create,
    Remove,
    Rename,
    Modify,
    Other,
}

/// One path of a watcher event, and whether it names a directory.
#[derive(Clone, Debug)]
pub struct EventPath {
    pub path: String,
    pub is_dir: bool,
}

/// The unit a step runs.
#[derive(Clone, Debug, PartialEq, Eq)]
pub enum Unit {
    /// Advance the oldest discovery pass.
    Discover,
    /// Read one batch of this source.
    Read(String),
    /// Promote pending usage.
    Reconcile,
    /// Check one page of tracked sources.
    Sweep,
    /// A recovery finished quietly: its notice was cleared.
    Cleared,
    /// Nothing to do.
    Idle,
}

/// The coordinator's state.
#[derive(Clone, Debug)]
pub struct Work {
    pub roots: Vec<String>,
    pub discoveries: usize,
    pub reads: Vec<String>,
    pub debounce: Vec<(String, u64)>,
    pub reconcile: bool,
    pub lane: usize,
    pub recovery: bool,
    pub recovery_notice: bool,
    pub sweeping: bool,
    pub sweep_after: Option<String>,
    pub sweep_through: Option<String>,
    pub sweep_requested: bool,
    pub discovered: u64,
    pub batches: u64,
    pub diagnostic: Option<String>,
}

/// The views of debounce entries.
pub open spec fn waiting(entries: Seq<(String, u64)>) -> Seq<(Seq<char>, u64)> {
    entries.map_values(|e: (String, u64)| (e.0@, e.1))
}

/// Whether a path waits in the debounce list.
pub open spec fn is_waiting(entries: Seq<(String, u64)>, path: Seq<char>) -> bool {
    exists|i: int| 0 <= i < entries.len() && (#[trigger] entries[i]).0@ == path
}

/// A text occurs at most once.
pub open spec fn distinct(items: Seq<Seq<char>>) -> bool {
    forall|i: int, j: int| 0 <= i < j < items.len() ==> items[i] != items[j]
}

/// Whether a path lies under a root, component by component (both absolute or
/// both relative).
pub open spec fn under(path: Seq<char>, root: Seq<char>) -> bool {
    &&& (path.len() > 0 && path[0] == '/') == (root.len() > 0 && root[0] == '/')
    &&& components_of(root).is_prefix_of(components_of(path))
}

/// Whether a normalized path lies under one of the watched roots.
pub open spec fn watched_of(roots: Seq<Seq<char>>, path: Seq<char>) -> bool {
    exists|i: int| 0 <= i < roots.len() && under(path, #[trigger] roots[i])
}

/// The coordinator as values.
pub struct WorkView {
    pub roots: Seq<Seq<char>>,
    pub discoveries: int,
    pub reads: Seq<Seq<char>>,
    pub debounce: Seq<(Seq<char>, u64)>,
    pub reconcile: bool,
    pub lane: int,
    pub recovery: bool,
    pub recovery_notice: bool,
    pub sweeping: bool,
    pub sweep_after: Option<Seq<char>>,
    pub sweep_through: Option<Seq<char>>,
    pub sweep_requested: bool,
    pub discovered: u64,
    pub batches: u64,
    pub diagnostic: Option<Seq<char>>,
}

/// The view of an optional string.
pub open spec fn opt_text(value: Option<String>) -> Option<Seq<char>> {
    match value {
        Some(v) => Some(v@),
        None => None,
    }
}

impl View for Work {
    type V = WorkView;

    open spec fn view(&self) -> WorkView {
        WorkView {
            roots: views(self.roots@),
            discoveries: self.discoveries as int,
            reads: views(self.reads@),
            debounce: waiting(self.debounce@),
            reconcile: self.reconcile,
            lane: self.lane as int,
            recovery: self.recovery,
            recovery_notice: self.recovery_notice,
            sweeping: self.sweeping,
            sweep_after: opt_text(self.sweep_after),
            sweep_through: opt_text(self.sweep_through),
            sweep_requested: self.sweep_requested,
            discovered: self.discovered,
            batches: self.batches,
            diagnostic: opt_text(self.diagnostic),
        }
    }
}

/// The coordinator after a recovery is requested.
pub open spec fn recovered(w: WorkView, message: Seq<char>) -> WorkView {
    WorkView {
        diagnostic: Some(message),
        recovery_notice: true,
        recovery: true,
        sweep_requested: true,
        ..w
    }
}

/// Whether a path waits out its debounce.
pub open spec fn debounced(entries: Seq<(Seq<char>, u64)>, path: Seq<char>) -> bool {
    exists|i: int| 0 <= i < entries.len() && (#[trigger] entries[i]).0 == path
}

/// The coordinator after one path of a watcher event, and the directory whose
/// discovery it starts. A rollout under a watched root waits out its debounce
/// (keeping its first deadline, so sustained writes cannot starve reads); another
/// removed or renamed path asks for a sweep, and a created or renamed directory
/// starts a discovery pass. Full queues turn into recovery.
pub open spec fn path_event(
    w: WorkView,
    kind: EventKind,
    raw: Seq<char>,
    is_dir: bool,
    now: u64,
) -> (WorkView, Option<Seq<char>>) {
    let p = normalized_of(raw);
    if !watched_of(w.roots, p) {
        (w, None)
    } else if is_rollout_of(p) {
        if debounced(w.debounce, p) {
            (w, None)
        } else if w.debounce.len() >= QUEUE_LIMIT {
            (recovered(w, "Source queue filled; recovering available files"@), None)
        } else {
            (WorkView { debounce: w.debounce.push((p, (now + DEBOUNCE_MS) as u64)), ..w }, None)
        }
    } else {
        let w1 = if kind == EventKind::Remove || kind == EventKind::Rename {
            WorkView { sweep_requested: true, ..w }
        } else {
            w
        };
        if (kind == EventKind::Create || kind == EventKind::Rename) && is_dir {
            if w1.discoveries < MAX_DISCOVERIES {
                (WorkView { discoveries: w1.discoveries + 1, ..w1 }, Some(p))
            } else {
                (recovered(w1, "Directory event burst; recovering available files"@), None)
            }
        } else {
            (w1, None)
        }
    }
}

/// The coordinator after the paths of an event in order, with the directories
/// whose discovery they start.
pub open spec fn paths_event(
    w: WorkView,
    kind: EventKind,
    paths: Seq<EventPath>,
    now: u64,
) -> (WorkView, Seq<Seq<char>>)
    decreases paths.len(),
{
    if paths.len() == 0 {
        (w, Seq::empty())
    } else {
        let (before, started) = paths_event(w, kind, paths.drop_last(), now);
        let (after, start) = path_event(before, kind, paths.last().path@, paths.last().is_dir, now);
        (after, match start {
            Some(d) => started.push(d),
            None => started,
        })
    }
}

/// The coordinator after a watcher event: a rescan request recovers; access is
/// ignored; an event with more than 512 paths recovers and only its first 512
/// paths are considered.
pub open spec fn event_of(
    w: WorkView,
    kind: EventKind,
    paths: Seq<EventPath>,
    need_rescan: bool,
    now: u64,
) -> (WorkView, Seq<Seq<char>>) {
    let w0 = if need_rescan {
        recovered(w, "Native watcher requested source recovery"@)
    } else {
        w
    };
    if kind == EventKind::Access {
        (w0, Seq::empty())
    } else {
        let w1 = if paths.len() > QUEUE_LIMIT {
            recovered(w0, "Source event exceeded queue capacity; recovering available files"@)
        } else {
            w0
        };
        paths_event(
            w1,
            kind,
            if paths.len() > QUEUE_LIMIT {
                paths.take(QUEUE_LIMIT as int)
            } else {
                paths
            },
            now,
        )
    }
}

/// The coordinator after a source is queued once; a full queue turns into recovery.
pub open spec fn enqueued(w: WorkView, path: Seq<char>) -> WorkView {
    if w.reads.contains(path) {
        w
    } else if w.reads.len() >= QUEUE_LIMIT {
        recovered(w, "Source queue filled; recovering available files"@)
    } else {
        WorkView { reads: w.reads.push(path), ..w }
    }
}

/// The coordinator after queueing sources in order.
pub open spec fn enqueued_all(w: WorkView, paths: Seq<Seq<char>>) -> WorkView
    decreases paths.len(),
{
    if paths.len() == 0 {
        w
    } else {
        enqueued(enqueued_all(w, paths.drop_last()), paths.last())
    }
}

/// The debounced paths whose deadline has come, in the order they were scheduled.
pub open spec fn due_paths(entries: Seq<(Seq<char>, u64)>, now: u64) -> Seq<Seq<char>> {
    entries.filter(|e: (Seq<char>, u64)| e.1 <= now).map_values(|e: (Seq<char>, u64)| e.0)
}

/// The coordinator at the start of a step: debounced rollouts whose deadline has
/// come are queued, and a pending recovery starts one discovery pass over the
/// roots once nothing else is being discovered or read.
pub open spec fn begun(w: WorkView, now: u64) -> (WorkView, bool) {
    let released = enqueued_all(
        WorkView { debounce: w.debounce.filter(|e: (Seq<char>, u64)| e.1 > now), ..w },
        due_paths(w.debounce, now),
    );
    if released.recovery && released.discoveries == 0 && released.reads.len() == 0 {
        (WorkView { discoveries: 1, recovery: false, ..released }, true)
    } else {
        (released, false)
    }
}

/// Whether a lane has work.
pub open spec fn lane_ready(w: WorkView, lane: int) -> bool {
    if lane == 0 {
        w.discoveries > 0 && w.reads.len() <= QUEUE_LIMIT - 64
    } else if lane == 1 {
        w.reads.len() > 0
    } else if lane == 2 {
        w.reconcile
    } else {
        w.sweep_requested || w.sweeping
    }
}

/// Whether any unit remains.
pub open spec fn busy_of(w: WorkView) -> bool {
    w.discoveries > 0 || w.reads.len() > 0 || w.reconcile || w.recovery || w.sweeping
        || w.sweep_requested
}

/// A unit as values.
pub enum UnitView {
    Discover,
    Read(Seq<char>),
    Reconcile,
    Sweep,
    Cleared,
    Idle,
}

/// The view of a unit.
pub open spec fn unit_view(unit: Unit) -> UnitView {
    match unit {
        Unit::Discover => UnitView::Discover,
        Unit::Read(p) => UnitView::Read(p@),
        Unit::Reconcile => UnitView::Reconcile,
        Unit::Sweep => UnitView::Sweep,
        Unit::Cleared => UnitView::Cleared,
        Unit::Idle => UnitView::Idle,
    }
}

/// The unit of a ready lane, with the lane that takes the next turn.
pub open spec fn unit_at(w: WorkView, lane: int, next: int) -> (WorkView, UnitView) {
    let w1 = WorkView { lane: next, ..w };
    if lane == 0 {
        (w1, UnitView::Discover)
    } else if lane == 1 {
        (WorkView { reads: w.reads.drop_first(), ..w1 }, UnitView::Read(w.reads[0]))
    } else if lane == 2 {
        (w1, UnitView::Reconcile)
    } else {
        (w1, UnitView::Sweep)
    }
}

/// The unit a step runs: the lanes take turns (discovery while the read queue has
/// room, a read, promotion, a sweep page); with nothing to run, a finished
/// recovery clears its notice.
pub open spec fn next_of(w: WorkView) -> (WorkView, UnitView) {
    if lane_ready(w, w.lane) {
        unit_at(w, w.lane, (w.lane + 1) % 4)
    } else if lane_ready(w, (w.lane + 1) % 4) {
        unit_at(w, (w.lane + 1) % 4, (w.lane + 2) % 4)
    } else if lane_ready(w, (w.lane + 2) % 4) {
        unit_at(w, (w.lane + 2) % 4, (w.lane + 3) % 4)
    } else if lane_ready(w, (w.lane + 3) % 4) {
        unit_at(w, (w.lane + 3) % 4, w.lane)
    } else if w.recovery_notice && !busy_of(w) && w.debounce.len() == 0 {
        (WorkView { diagnostic: None, recovery_notice: false, ..w }, UnitView::Cleared)
    } else {
        (w, UnitView::Idle)
    }
}

impl Work {
    /// Well formed: queued reads are distinct and bounded, each path waits at
    /// most once, the lane is one of four, and at most eight passes are waiting.
    pub open spec fn wf(&self) -> bool {
        &&& self.reads@.len() <= QUEUE_LIMIT
        &&& distinct(views(self.reads@))
        &&& self.debounce@.len() <= QUEUE_LIMIT
        &&& distinct(waiting(self.debounce@).map_values(|e: (Seq<char>, u64)| e.0))
        &&& self.lane < 4
        &&& self.discoveries <= MAX_DISCOVERIES
    }

    /// Whether any unit remains.
    pub open spec fn busy_spec(&self) -> bool {
        self.discoveries > 0 || self.reads@.len() > 0 || self.reconcile || self.recovery
            || self.sweeping || self.sweep_requested
    }
}

fn join(base: &String, name: &str) -> (result: String)
    ensures
        result@ == if base@ == seq!['/'] || base@.len() == 0 {
            base@ + name@
        } else {
            base@ + seq!['/'] + name@
        },
{
    let mut text = base.clone();
    let n = base.as_str().unicode_len();
    let root = n == 1 && base.as_str().get_char(0) == '/';
    if !root && n > 0 {
        crate::text::push_char(&mut text, '/');
    }
    push_str(&mut text, name);
    assert(root == (base@ == seq!['/'])) by {
        if n == 1 {
            assert(base@ =~= seq![base@[0]]);
        }
    }
    text
}

#[verifier::loop_isolation(false)]
fn starts_under(path: &str, root: &str) -> (result: bool)
    ensures
        result == under(path@, root@),
{
    let path_absolute = path.unicode_len() > 0 && path.get_char(0) == '/';
    let root_absolute = root.unicode_len() > 0 && root.get_char(0) == '/';
    if path_absolute != root_absolute {
        return false;
    }
    let p = components(path);
    let r = components(root);
    if r.len() > p.len() {
        return false;
    }
    let mut i: usize = 0;
    while i < r.len()
        invariant
            i <= r@.len(),
            r@.len() <= p@.len(),
            forall|k: int| 0 <= k < i ==> r@[k]@ == p@[k]@,
        decreases r@.len() - i,
    {
        if !str_eq(r[i].as_str(), p[i].as_str()) {
            assert(views(p@).subrange(0, r@.len() as int)[i as int] != views(r@)[i as int]);
            return false;
        }
        i = i + 1;
    }
    assert(views(r@) =~= views(p@).subrange(0, r@.len() as int));
    true
}

impl Work {
    /// A coordinator for a Codex home: it watches `sessions` and
    /// `archived_sessions`, starts with one discovery pass over both, promotes
    /// pending usage and sweeps the tracked sources once.
    pub fn new(home: &str) -> (result: Work)
        ensures
            result.wf(),
            views(result.roots@) == seq![
                (if normalized_of(home@) == seq!['/'] || normalized_of(home@).len() == 0 {
                    normalized_of(home@) + "sessions"@
                } else {
                    normalized_of(home@) + seq!['/'] + "sessions"@
                }),
                (if normalized_of(home@) == seq!['/'] || normalized_of(home@).len() == 0 {
                    normalized_of(home@) + "archived_sessions"@
                } else {
                    normalized_of(home@) + seq!['/'] + "archived_sessions"@
                }),
            ],
            result.discoveries == 1,
            result.reads@.len() == 0,
            result.debounce@.len() == 0,
            result.reconcile,
            !result.recovery,
            !result.recovery_notice,
            !result.sweeping,
            result.sweep_requested,
            result.discovered == 0,
            result.batches == 0,
            result.diagnostic is None,
    {
        let home = normalized_path(home);
        let mut roots: Vec<String> = Vec::new();
        roots.push(join(&home, "sessions"));
        roots.push(join(&home, "archived_sessions"));
        let work = Work {
            roots,
            discoveries: 1,
            reads: Vec::new(),
            debounce: Vec::new(),
            reconcile: true,
            lane: 0,
            recovery: false,
            recovery_notice: false,
            sweeping: false,
            sweep_after: None,
            sweep_through: None,
            sweep_requested: true,
            discovered: 0,
            batches: 0,
            diagnostic: None,
        };
        assert(views(work.reads@) =~= Seq::<Seq<char>>::empty());
        assert(waiting(work.debounce@).map_values(|e: (Seq<char>, u64)| e.0) =~= Seq::<
            Seq<char>,
        >::empty());
        work
    }

    /// Whether a normalized path lies under a watched root.
    pub fn watched(&self, path: &str) -> (result: bool)
        ensures
            result == watched_of(views(self.roots@), path@),
    {
        let mut i: usize = 0;
        while i < self.roots.len()
            invariant
                i <= self.roots@.len(),
                forall|k: int| 0 <= k < i ==> !under(path@, #[trigger] views(self.roots@)[k]),
            decreases self.roots@.len() - i,
        {
            if starts_under(path, self.roots[i].as_str()) {
                assert(under(path@, views(self.roots@)[i as int]));
                return true;
            }
            i = i + 1;
        }
        false
    }

    /// Collapses overflow and error storms into one follow-up discovery pass and
    /// sweep, and remembers why.
    pub fn recover(&mut self, message: &str)
        ensures
            final(self).diagnostic matches Some(d) && d@ == message@,
            final(self).recovery_notice,
            final(self).recovery,
            final(self).sweep_requested,
            final(self).roots == old(self).roots,
            final(self).discoveries == old(self).discoveries,
            final(self).reads == old(self).reads,
            final(self).debounce == old(self).debounce,
            final(self).reconcile == old(self).reconcile,
            final(self).lane == old(self).lane,
            final(self).sweeping == old(self).sweeping,
            final(self).sweep_after == old(self).sweep_after,
            final(self).sweep_through == old(self).sweep_through,
            final(self).discovered == old(self).discovered,
            final(self).batches == old(self).batches,
    {
        self.diagnostic = Some(owned(message));
        self.recovery_notice = true;
        self.recovery = true;
        self.sweep_requested = true;
    }

    /// Records a failure that recovery will not clear.
    pub fn failed(&mut self, message: String)
        ensures
            final(self).diagnostic == Some(message),
            !final(self).recovery_notice,
            final(self).recovery == old(self).recovery,
            final(self).sweep_requested == old(self).sweep_requested,
            final(self).roots == old(self).roots,
            final(self).discoveries == old(self).discoveries,
            final(self).reads == old(self).reads,
            final(self).debounce == old(self).debounce,
            final(self).reconcile == old(self).reconcile,
            final(self).lane == old(self).lane,
            final(self).sweeping == old(self).sweeping,
            final(self).sweep_after == old(self).sweep_after,
            final(self).sweep_through == old(self).sweep_through,
            final(self).discovered == old(self).discovered,
            final(self).batches == old(self).batches,
    {
        self.diagnostic = Some(message);
        self.recovery_notice = false;
    }

    fn queued(&self, path: &str) -> (result: bool)
        ensures
            result == views(self.reads@).contains(path@),
    {
        let mut i: usize = 0;
        while i < self.reads.len()
            invariant
                i <= self.reads@.len(),
                forall|k: int| 0 <= k < i ==> self.reads@[k]@ != path@,
            decreases self.reads@.len() - i,
        {
            if str_eq(self.reads[i].as_str(), path) {
                assert(views(self.reads@)[i as int] == path@);
                return true;
            }
            i = i + 1;
        }
        false
    }

    /// Queues a source for reading once; a full queue turns into recovery.
    pub fn enqueue(&mut self, path: String)
        requires
            old(self).wf(),
        ensures
            final(self).wf(),
            final(self)@ == enqueued(old(self)@, path@),
    {
        if self.queued(path.as_str()) {
            return;
        }
        if self.reads.len() >= QUEUE_LIMIT {
            self.recover("Source queue filled; recovering available files");
            proof {
                reveal_strlit("Source queue filled; recovering available files");
            }
            assert(self@ == enqueued(old(self)@, path@));
        } else {
            let ghost before = views(self.reads@);
            self.reads.push(path);
            assert(views(self.reads@) =~= before.push(path@));
            assert(self@ == enqueued(old(self)@, path@));
        }
    }
}

impl Work {
    fn waits(&self, path: &str) -> (result: bool)
        ensures
            result == debounced(waiting(self.debounce@), path@),
    {
        let mut i: usize = 0;
        while i < self.debounce.len()
            invariant
                i <= self.debounce@.len(),
                forall|k: int| 0 <= k < i ==> self.debounce@[k].0@ != path@,
            decreases self.debounce@.len() - i,
        {
            if str_eq(self.debounce[i].0.as_str(), path) {
                assert(waiting(self.debounce@)[i as int].0 == path@);
                return true;
            }
            i = i + 1;
        }
        false
    }

    fn on_path(&mut self, kind: EventKind, raw: &str, is_dir: bool, now: u64) -> (result: Option<String>)
        requires
            old(self).wf(),
            now <= u64::MAX - DEBOUNCE_MS,
        ensures
            final(self).wf(),
            (final(self)@, opt_text(result)) == path_event(old(self)@, kind, raw@, is_dir, now),
    {
        let path = normalized_path(raw);
        if !self.watched(path.as_str()) {
            return None;
        }
        if is_rollout(path.as_str()) {
            if self.waits(path.as_str()) {
                return None;
            }
            if self.debounce.len() >= QUEUE_LIMIT {
                self.recover("Source queue filled; recovering available files");
                return None;
            }
            let ghost before = self.debounce@;
            self.debounce.push((path, now + DEBOUNCE_MS));
            proof {
                assert(waiting(self.debounce@) =~= waiting(before).push((path@, (now + DEBOUNCE_MS) as u64)));
                let keys = waiting(self.debounce@).map_values(|e: (Seq<char>, u64)| e.0);
                let old_keys = waiting(before).map_values(|e: (Seq<char>, u64)| e.0);
                assert(keys =~= old_keys.push(path@));
                assert forall|i: int, j: int| 0 <= i < j < keys.len() implies keys[i] != keys[j] by {
                    if j == keys.len() - 1 {
                        assert(waiting(before)[i].0 == keys[i]);
                    }
                }
            }
            return None;
        }
        if kind == EventKind::Remove || kind == EventKind::Rename {
            self.sweep_requested = true;
        }
        if (kind == EventKind::Create || kind == EventKind::Rename) && is_dir {
            if self.discoveries < MAX_DISCOVERIES {
                self.discoveries = self.discoveries + 1;
                return Some(path);
            }
            self.recover("Directory event burst; recovering available files");
        }
        None
    }

    /// Applies a watcher event; the paths are those the event names. Returns the
    /// directories whose discovery passes start, in order.
    pub fn event(&mut self, kind: EventKind, paths: Vec<EventPath>, need_rescan: bool, now: u64) -> (result: Vec<String>)
        requires
            old(self).wf(),
            now <= u64::MAX - DEBOUNCE_MS,
        ensures
            final(self).wf(),
            (final(self)@, views(result@)) == event_of(old(self)@, kind, paths@, need_rescan, now),
    {
        let mut started: Vec<String> = Vec::new();
        if need_rescan {
            self.recover("Native watcher requested source recovery");
        }
        if kind == EventKind::Access {
            return started;
        }
        if paths.len() > QUEUE_LIMIT {
            self.recover("Source event exceeded queue capacity; recovering available files");
        }
        let ghost considered = if paths@.len() > QUEUE_LIMIT {
            paths@.take(QUEUE_LIMIT as int)
        } else {
            paths@
        };
        let ghost start = self@;
        let count = if paths.len() > QUEUE_LIMIT { QUEUE_LIMIT } else { paths.len() };
        let mut i: usize = 0;
        while i < count
            invariant
                i <= count,
                count == considered.len(),
                count <= paths@.len(),
                forall|k: int| 0 <= k < count ==> considered[k] == paths@[k],
                now <= u64::MAX - DEBOUNCE_MS,
                self.wf(),
                (self@, views(started@)) == paths_event(start, kind, considered.take(i as int), now),
            decreases count - i,
        {
            let item = &paths[i];
            let ghost before = views(started@);
            assert(considered.take(i + 1).drop_last() =~= considered.take(i as int));
            match self.on_path(kind, item.path.as_str(), item.is_dir, now) {
                Some(directory) => {
                    started.push(directory);
                    assert(views(started@) =~= before.push(directory@));
                },
                None => {},
            }
            i = i + 1;
        }
        assert(considered.take(count as int) =~= considered);
        started
    }

    fn enqueue_all(&mut self, paths: Vec<String>)
        requires
            old(self).wf(),
        ensures
            final(self).wf(),
            final(self)@ == enqueued_all(old(self)@, views(paths@)),
    {
        let mut i: usize = 0;
        let ghost start = self@;
        let mut paths = paths;
        let ghost all = paths@;
        let mut rest: Vec<String> = Vec::new();
        while paths.len() > 0
            invariant
                paths@.len() + rest@.len() == all.len(),
                forall|k: int| 0 <= k < rest@.len() ==> rest@[k] == all[all.len() - 1 - k],
                forall|k: int| 0 <= k < paths@.len() ==> paths@[k] == all[k],
            decreases paths@.len(),
        {
            let last = paths.pop().unwrap();
            rest.push(last);
        }
        let n = rest.len();
        while i < n
            invariant
                n == all.len(),
                i <= all.len(),
                rest@.len() == all.len() - i,
                forall|k: int| 0 <= k < rest@.len() ==> rest@[k] == all[all.len() - 1 - k],
                self.wf(),
                self@ == enqueued_all(start, views(all).take(i as int)),
            decreases all.len() - i,
        {
            let path = rest.pop().unwrap();
            assert(path == all[i as int]);
            assert(views(all).take(i + 1).drop_last() =~= views(all).take(i as int));
            self.enqueue(path);
            i = i + 1;
        }
        assert(views(all).take(all.len() as int) =~= views(all));
    }

    /// The earliest debounce deadline.
    pub fn deadline(&self) -> (result: Option<u64>)
        ensures
            match result {
                Some(d) => exists|i: int| 0 <= i < self.debounce@.len() && self.debounce@[i].1 == d
                    && forall|j: int| 0 <= j < self.debounce@.len() ==> d <= #[trigger] self.debounce@[j].1,
                None => self.debounce@.len() == 0,
            },
    {
        let mut best: Option<u64> = None;
        let mut i: usize = 0;
        while i < self.debounce.len()
            invariant
                i <= self.debounce@.len(),
                match best {
                    Some(d) => exists|k: int| 0 <= k < i && self.debounce@[k].1 == d
                        && forall|j: int| 0 <= j < i ==> d <= #[trigger] self.debounce@[j].1,
                    None => i == 0,
                },
            decreases self.debounce@.len() - i,
        {
            let d = self.debounce[i].1;
            best = match best {
                Some(b) => if d < b { Some(d) } else { Some(b) },
                None => Some(d),
            };
            i = i + 1;
        }
        best
    }

    /// Whether any unit remains.
    pub fn busy(&self) -> (result: bool)
        ensures
            result == busy_of(self@),
    {
        self.discoveries > 0 || self.reads.len() > 0 || self.reconcile || self.recovery
            || self.sweeping || self.sweep_requested
    }
}

impl Work {
    /// Starts a step: queues debounced rollouts whose deadline has come, in the
    /// order they were scheduled, and, when a recovery waits while nothing is being
    /// discovered or read, starts a discovery pass over the roots (returned).
    #[verifier::spinoff_prover]
    pub fn begin(&mut self, now: u64) -> (result: Option<Vec<String>>)
        requires
            old(self).wf(),
        ensures
            final(self).wf(),
            final(self)@ == begun(old(self)@, now).0,
            result is Some == begun(old(self)@, now).1,
            result matches Some(roots) ==> views(roots@) == old(self)@.roots,
    {
        let mut entries: Vec<(String, u64)> = Vec::new();
        std::mem::swap(&mut entries, &mut self.debounce);
        let mut due: Vec<String> = Vec::new();
        let mut i: usize = 0;
        let ghost all = entries@;
        proof {
            reveal(Seq::filter);
            assert(waiting(all.take(0)) =~= Seq::<(Seq<char>, u64)>::empty());
        }
        while i < entries.len()
            invariant
                i <= entries@.len(),
                entries@ == all,
                all == old(self).debounce@,
                old(self).wf(),
                self.debounce@.len() <= i,
                forall|k: int|
                    0 <= k < self.debounce@.len() ==> exists|j: int|
                        0 <= j < i && (#[trigger] self.debounce@[k]).0@ == all[j].0@,
                distinct(waiting(self.debounce@).map_values(|e: (Seq<char>, u64)| e.0)),
                waiting(self.debounce@) == waiting(all.take(i as int)).filter(
                    |e: (Seq<char>, u64)| e.1 > now,
                ),
                views(due@) == due_paths(waiting(all.take(i as int)), now),
                self.reads == old(self).reads,
                self.roots == old(self).roots,
                self.discoveries == old(self).discoveries,
                self.recovery == old(self).recovery,
                self.recovery_notice == old(self).recovery_notice,
                self.reconcile == old(self).reconcile,
                self.lane == old(self).lane,
                self.sweeping == old(self).sweeping,
                self.sweep_after == old(self).sweep_after,
                self.sweep_through == old(self).sweep_through,
                self.sweep_requested == old(self).sweep_requested,
                self.discovered == old(self).discovered,
                self.batches == old(self).batches,
                self.diagnostic == old(self).diagnostic,
            decreases entries@.len() - i,
        {
            let path = entries[i].0.clone();
            let deadline = entries[i].1;
            proof {
                reveal(Seq::filter);
                let w = waiting(all.take(i + 1));
                assert(w.drop_last() =~= waiting(all.take(i as int)));
                assert(w.last() == (path@, deadline));
            }
            if deadline <= now {
                let ghost before = views(due@);
                due.push(path);
                assert(views(due@) =~= before.push(all[i as int].0@));
                proof {
                    reveal(Seq::filter);
                    let w = waiting(all.take(i + 1));
                    let f = w.filter(|e: (Seq<char>, u64)| e.1 <= now);
                    assert(f == w.drop_last().filter(|e: (Seq<char>, u64)| e.1 <= now).push(
                        w.last(),
                    ));
                    assert(f.map_values(|e: (Seq<char>, u64)| e.0) =~= w.drop_last().filter(
                        |e: (Seq<char>, u64)| e.1 <= now,
                    ).map_values(|e: (Seq<char>, u64)| e.0).push(w.last().0));
                }
            } else {
                let ghost before = waiting(self.debounce@);
                let ghost kept = self.debounce@;
                self.debounce.push((path, deadline));
                assert(waiting(self.debounce@) =~= before.push((all[i as int].0@, deadline)));
                proof {
                    let keys = waiting(self.debounce@).map_values(|e: (Seq<char>, u64)| e.0);
                    let all_keys = waiting(all).map_values(|e: (Seq<char>, u64)| e.0);
                    assert forall|a: int, b: int| 0 <= a < b < keys.len() implies keys[a]
                        != keys[b] by {
                        if b == keys.len() - 1 {
                            let j = choose|j: int|
                                0 <= j < i && (#[trigger] kept[a]).0@ == all[j].0@;
                            assert(keys[a] == kept[a].0@);
                            assert(all_keys[j] != all_keys[i as int]);
                        } else {
                            assert(keys[a] == waiting(kept).map_values(
                                |e: (Seq<char>, u64)| e.0,
                            )[a]);
                            assert(keys[b] == waiting(kept).map_values(
                                |e: (Seq<char>, u64)| e.0,
                            )[b]);
                        }
                    }
                    assert forall|k: int| 0 <= k < self.debounce@.len() implies exists|j: int|
                        0 <= j < i + 1 && (#[trigger] self.debounce@[k]).0@ == all[j].0@ by {
                        if k < kept.len() {
                            assert(self.debounce@[k] == kept[k]);
                        } else {
                            assert(self.debounce@[k].0@ == all[i as int].0@);
                        }
                    }
                }
            }
            i = i + 1;
        }
        assert(all.take(all.len() as int) =~= all);
        self.enqueue_all(due);
        proof {
            lemma_enqueued_all_keeps_roots(old(self)@, views(due@));
        }
        if self.recovery && self.discoveries == 0 && self.reads.len() == 0 {
            self.discoveries = 1;
            self.recovery = false;
            return Some(copy_texts(&self.roots));
        }
        None
    }
}

fn copy_texts(v: &Vec<String>) -> (result: Vec<String>)
    ensures
        views(result@) == views(v@),
{
    let mut out: Vec<String> = Vec::new();
    let mut i: usize = 0;
    while i < v.len()
        invariant
            i <= v@.len(),
            views(out@) == views(v@).take(i as int),
        decreases v@.len() - i,
    {
        let ghost before = views(out@);
        out.push(v[i].clone());
        assert(views(out@) =~= before.push(v@[i as int]@));
        assert(views(v@).take(i + 1) =~= views(v@).take(i as int).push(v@[i as int]@));
        i = i + 1;
    }
    assert(views(v@).take(v@.len() as int) =~= views(v@));
    out
}

proof fn lemma_enqueued_all_keeps_roots(w: WorkView, paths: Seq<Seq<char>>)
    ensures
        enqueued_all(w, paths).roots == w.roots,
    decreases paths.len(),
{
    if paths.len() > 0 {
        lemma_enqueued_all_keeps_roots(w, paths.drop_last());
    }
}

impl Work {
    fn ready(&self, lane: usize) -> (result: bool)
        requires
            lane < 4,
        ensures
            result == lane_ready(self@, lane as int),
    {
        if lane == 0 {
            self.discoveries > 0 && self.reads.len() <= QUEUE_LIMIT - 64
        } else if lane == 1 {
            self.reads.len() > 0
        } else if lane == 2 {
            self.reconcile
        } else {
            self.sweep_requested || self.sweeping
        }
    }

    fn run(&mut self, lane: usize, next: usize) -> (result: Unit)
        requires
            old(self).wf(),
            lane < 4,
            next < 4,
            lane_ready(old(self)@, lane as int),
        ensures
            final(self).wf(),
            (final(self)@, unit_view(result)) == unit_at(old(self)@, lane as int, next as int),
    {
        self.lane = next;
        if lane == 0 {
            Unit::Discover
        } else if lane == 1 {
            let ghost before = self.reads@;
            let path = self.reads.remove(0);
            proof {
                assert(views(self.reads@) =~= views(before).drop_first());
                assert forall|i: int, j: int|
                    0 <= i < j < views(self.reads@).len() implies views(self.reads@)[i]
                    != views(self.reads@)[j] by {
                    assert(views(self.reads@)[i] == views(before)[i + 1]);
                    assert(views(self.reads@)[j] == views(before)[j + 1]);
                }
            }
            Unit::Read(path)
        } else if lane == 2 {
            Unit::Reconcile
        } else {
            Unit::Sweep
        }
    }

    /// Chooses the unit this step runs.
    pub fn next_unit(&mut self) -> (result: Unit)
        requires
            old(self).wf(),
        ensures
            final(self).wf(),
            (final(self)@, unit_view(result)) == next_of(old(self)@),
    {
        let lane = self.lane;
        if self.ready(lane) {
            return self.run(lane, (lane + 1) % 4);
        }
        if self.ready((lane + 1) % 4) {
            return self.run((lane + 1) % 4, (lane + 2) % 4);
        }
        if self.ready((lane + 2) % 4) {
            return self.run((lane + 2) % 4, (lane + 3) % 4);
        }
        if self.ready((lane + 3) % 4) {
            return self.run((lane + 3) % 4, lane);
        }
        if self.recovery_notice && !self.busy() && self.debounce.len() == 0 {
            self.diagnostic = None;
            self.recovery_notice = false;
            return Unit::Cleared;
        }
        Unit::Idle
    }

    /// Records a discovery step: the rollouts it found are queued, a finished pass
    /// leaves the queue of passes, and unreadable directories are reported.
    pub fn discovered_paths(&mut self, found: Vec<String>, failed: bool, finished: bool)
        requires
            old(self).wf(),
            old(self).discoveries > 0,
        ensures
            final(self).wf(),
            final(self)@ == enqueued_all(
                {
                    let w = old(self)@;
                    let w1 = if finished { WorkView { discoveries: w.discoveries - 1, ..w } } else { w };
                    let w2 = if failed {
                        WorkView {
                            diagnostic: Some("Some source directories could not be read"@),
                            recovery_notice: false,
                            ..w1
                        }
                    } else {
                        w1
                    };
                    WorkView {
                        discovered: if w2.discovered + found@.len() > u64::MAX {
                            u64::MAX
                        } else {
                            (w2.discovered + found@.len()) as u64
                        },
                        ..w2
                    }
                },
                views(found@),
            ),
    {
        if finished {
            self.discoveries = self.discoveries - 1;
        }
        if failed {
            self.failed(owned("Some source directories could not be read"));
        }
        let count = found.len() as u64;
        self.discovered = if self.discovered > u64::MAX - count {
            u64::MAX
        } else {
            self.discovered + count
        };
        self.enqueue_all(found);
    }

    /// Records a read: a source with more captured bytes is queued again, an error
    /// is reported, and promotion becomes due.
    pub fn read_finished(&mut self, path: String, outcome: Result<bool, String>)
        requires
            old(self).wf(),
        ensures
            final(self).wf(),
            final(self)@ == {
                let w = old(self)@;
                let w1 = match outcome {
                    Ok(true) => enqueued(w, path@),
                    Ok(false) => w,
                    Err(m) => WorkView { diagnostic: Some(m@), recovery_notice: false, ..w },
                };
                WorkView {
                    batches: if w1.batches == u64::MAX { u64::MAX } else { (w1.batches + 1) as u64 },
                    reconcile: true,
                    ..w1
                }
            },
    {
        match outcome {
            Ok(more) => {
                if more {
                    self.enqueue(path);
                }
            },
            Err(message) => self.failed(message),
        }
        self.batches = if self.batches == u64::MAX { u64::MAX } else { self.batches + 1 };
        self.reconcile = true;
    }

    /// Records promotion: it stays due while pending usage remains.
    pub fn reconciled(&mut self, pending: bool)
        requires
            old(self).wf(),
        ensures
            final(self).wf(),
            final(self)@ == (WorkView { reconcile: pending, ..old(self)@ }),
    {
        self.reconcile = pending;
    }

    /// Starts a sweep through the tracked sources up to the store's watermark;
    /// without tracked sources there is nothing to sweep.
    pub fn sweep_started(&mut self, watermark: Option<String>)
        requires
            old(self).wf(),
        ensures
            final(self).wf(),
            final(self)@ == (WorkView {
                sweeping: watermark is Some,
                sweep_after: None,
                sweep_through: opt_text(watermark),
                sweep_requested: false,
                ..old(self)@
            }),
    {
        self.sweeping = watermark.is_some();
        self.sweep_after = None;
        self.sweep_through = watermark;
        self.sweep_requested = false;
    }

    /// Records a sweep page: a short page ends the sweep; otherwise the sweep
    /// continues after the page's last path.
    pub fn sweep_page(&mut self, count: usize, last: Option<String>)
        requires
            old(self).wf(),
        ensures
            final(self).wf(),
            count < SWEEP_PAGE ==> final(self)@ == (WorkView { sweeping: false, ..old(self)@ }),
            count >= SWEEP_PAGE ==> final(self)@ == (WorkView {
                sweep_after: opt_text(last),
                ..old(self)@
            }),
    {
        if count < SWEEP_PAGE {
            self.sweeping = false;
        } else {
            self.sweep_after = last;
        }
    }
}

/// The progress line: the phase, then how many files were discovered, how many
/// batches were read, and how many files wait.
pub open spec fn progress_of(w: WorkView, roots_present: bool) -> Seq<char> {
    (if busy_of(w) {
        "Importing / recovering history"@
    } else if roots_present {
        "Live monitoring"@
    } else {
        "Waiting for Codex source directories"@
    }) + " · "@ + decimal(w.discovered as int) + " files discovered · "@ + decimal(
        w.batches as int,
    ) + " read batches · "@ + decimal((w.reads.len() + w.debounce.len()) as int) + " queued files"@
}

impl Work {
    /// The progress line shown while monitoring; `roots_present` tells whether a
    /// watched root exists as a directory.
    pub fn progress(&self, roots_present: bool) -> (result: String)
        requires
            self.wf(),
        ensures
            result@ == progress_of(self@, roots_present),
    {
        let phase = if self.busy() {
            "Importing / recovering history"
        } else if roots_present {
            "Live monitoring"
        } else {
            "Waiting for Codex source directories"
        };
        let mut text = owned(phase);
        push_str(&mut text, " · ");
        push_u128(&mut text, self.discovered as u128);
        push_str(&mut text, " files discovered · ");
        push_u128(&mut text, self.batches as u128);
        push_str(&mut text, " read batches · ");
        push_u128(&mut text, (self.reads.len() + self.debounce.len()) as u128);
        push_str(&mut text, " queued files");
        text
    }
}

/// Sustained writes cannot starve reads: a rollout already waiting keeps its first
/// deadline whatever events follow for it.
pub proof fn law_first_deadline_kept(w: WorkView, kind: EventKind, raw: Seq<char>, is_dir: bool, now: u64)
    requires
        debounced(w.debounce, normalized_of(raw)),
    ensures
        path_event(w, kind, raw, is_dir, now).0.debounce == w.debounce,
{
}

/// An idle coordinator has no work: with nothing to discover, read, promote or
/// sweep, no recovery pending and no notice to clear, a step changes nothing.
pub proof fn law_idle_coordinator_stays_idle(w: WorkView)
    requires
        0 <= w.lane < 4,
        !busy_of(w),
        !w.recovery_notice,
    ensures
        next_of(w) == (w, UnitView::Idle),
{
}


// ------------------------------------------------------------------ writer loop

/// Snapshots are published at most this often, in milliseconds.
pub const PUBLISH_INTERVAL_MS: u64 = 100;

/// The writer loop's publication state: whether a change awaits publication and the
/// instant (milliseconds on a monotonic clock) of the last publication.
#[derive(Clone, Copy, Debug, PartialEq, Eq, Structural)]
pub struct Writer {
    pub dirty: bool,
    pub published: u64,
}

/// What the loop learned in one pass: whether anything changed, the current instant,
/// whether work remains for an immediate next pass, and the pending work and
/// retention deadlines.
#[derive(Clone, Copy, Debug, PartialEq, Eq, Structural)]
pub struct WriterEvent {
    pub changed: bool,
    pub now: u64,
    pub busy: bool,
    pub work_deadline: Option<u64>,
    pub retention_deadline: Option<u64>,
}

/// How the loop waits for the next event.
#[derive(Clone, Copy, Debug, PartialEq, Eq, Structural)]
pub enum Wait {
    /// Run again at once.
    Continue,
    /// Wait for an event until this instant.
    Until(u64),
    /// Nothing is scheduled: wait for an event indefinitely.
    Forever,
}

/// What the loop does after one pass: publish a snapshot or not, then wait.
#[derive(Clone, Copy, Debug, PartialEq, Eq, Structural)]
pub struct WriterAction {
    pub publish: bool,
    pub wait: Wait,
}

/// The earlier of two optional instants.
pub open spec fn earliest(a: Option<u64>, b: Option<u64>) -> Option<u64> {
    match (a, b) {
        (Some(x), Some(y)) => Some(if x <= y { x } else { y }),
        (Some(x), None) => Some(x),
        (None, y) => y,
    }
}

/// One pass of the writer loop: a pending change is published once the interval since
/// the last publication has passed; then the loop runs again at once while work is
/// busy, or waits until the earliest of the work deadline, the retention deadline and,
/// while a change still awaits publication, the next allowed publication.
pub open spec fn writer_next(state: Writer, event: WriterEvent) -> (Writer, WriterAction) {
    let dirty = state.dirty || event.changed;
    let publish = dirty && event.now >= state.published + PUBLISH_INTERVAL_MS;
    let next = if publish { Writer { dirty: false, published: event.now } } else { Writer { dirty, published: state.published } };
    let wait = if event.busy {
        Wait::Continue
    } else {
        match earliest(
            earliest(event.work_deadline, event.retention_deadline),
            if next.dirty { Some((next.published + PUBLISH_INTERVAL_MS) as u64) } else { None },
        ) {
            Some(at) => Wait::Until(at),
            None => Wait::Forever,
        }
    };
    (next, WriterAction { publish, wait })
}

fn earlier(a: Option<u64>, b: Option<u64>) -> (result: Option<u64>)
    ensures
        result == earliest(a, b),
{
    match (a, b) {
        (Some(x), Some(y)) => Some(if x <= y { x } else { y }),
        (Some(x), None) => Some(x),
        (None, y) => y,
    }
}

impl Writer {
    /// The state at start: a first snapshot is due at once.
    pub fn new(now: u64) -> (result: Writer)
        ensures
            result.dirty,
            result.published == if now >= PUBLISH_INTERVAL_MS { (now - PUBLISH_INTERVAL_MS) as u64 } else { 0 },
    {
        Writer { dirty: true, published: if now >= PUBLISH_INTERVAL_MS { now - PUBLISH_INTERVAL_MS } else { 0 } }
    }
}

/// Decides one pass of the writer loop.
pub fn writer_step(state: Writer, event: WriterEvent) -> (result: (Writer, WriterAction))
    requires
        state.published <= u64::MAX - PUBLISH_INTERVAL_MS,
        event.now <= u64::MAX - PUBLISH_INTERVAL_MS,
    ensures
        result == writer_next(state, event),
{
    let dirty = state.dirty || event.changed;
    let publish = dirty && event.now >= state.published + PUBLISH_INTERVAL_MS;
    let next = if publish { Writer { dirty: false, published: event.now } } else { Writer { dirty, published: state.published } };
    let wait = if event.busy {
        Wait::Continue
    } else {
        let publication = if next.dirty { Some(next.published + PUBLISH_INTERVAL_MS) } else { None };
        match earlier(earlier(event.work_deadline, event.retention_deadline), publication) {
            Some(at) => Wait::Until(at),
            None => Wait::Forever,
        }
    };
    (next, WriterAction { publish, wait })
}

/// Publications are throttled: a pass publishes only when the interval since the
/// previous publication has passed, and a change that is not published stays pending
/// with a wake-up no later than the next allowed publication.
pub proof fn law_publication_is_throttled(state: Writer, event: WriterEvent)
    requires
        state.published <= u64::MAX - PUBLISH_INTERVAL_MS,
    ensures
        writer_next(state, event).1.publish ==> event.now >= state.published + PUBLISH_INTERVAL_MS,
        (state.dirty || event.changed) && !writer_next(state, event).1.publish ==> {
            &&& writer_next(state, event).0.dirty
            &&& !event.busy ==> (writer_next(state, event).1.wait matches Wait::Until(at)
                && at <= state.published + PUBLISH_INTERVAL_MS)
        },
{
}

} // verus!
