//! The registry of tracked files and the per-file watch state machine: each
//! change event (re)arms a debounce deadline, and a file fires once when its
//! deadline has passed, however many events the burst held. A file is
//! `Active` while it is there and `Pending` while it is missing; untracking
//! removes its entry, after which no event reaches it.

use vstd::prelude::*;
use crate::bytes::compare_bytes;
use crate::store::copy_bytes;

verus! {

/// How a tracked file's display label is found.
pub enum AliasPolicy {
    Basename,
    Script(Vec<u8>),
}

/// What happens when a tracked file changes.
pub enum ActionPolicy {
    SaveSnapshot,
    Script(Vec<u8>),
}

pub ghost enum AliasSpec {
    Basename,
    Script(Seq<u8>),
}

pub ghost enum ActionSpec {
    SaveSnapshot,
    Script(Seq<u8>),
}

impl View for AliasPolicy {
    type V = AliasSpec;

    open spec fn view(&self) -> AliasSpec {
        match self {
            AliasPolicy::Basename => AliasSpec::Basename,
            AliasPolicy::Script(s) => AliasSpec::Script(s@),
        }
    }
}

impl View for ActionPolicy {
    type V = ActionSpec;

    open spec fn view(&self) -> ActionSpec {
        match self {
            ActionPolicy::SaveSnapshot => ActionSpec::SaveSnapshot,
            ActionPolicy::Script(s) => ActionSpec::Script(s@),
        }
    }
}

impl AliasPolicy {
    pub fn duplicate(&self) -> (r: AliasPolicy)
        ensures
            r@ == self@,
    {
        match self {
            AliasPolicy::Basename => AliasPolicy::Basename,
            AliasPolicy::Script(s) => AliasPolicy::Script(copy_bytes(s.as_slice())),
        }
    }
}

impl ActionPolicy {
    pub fn duplicate(&self) -> (r: ActionPolicy)
        ensures
            r@ == self@,
    {
        match self {
            ActionPolicy::SaveSnapshot => ActionPolicy::SaveSnapshot,
            ActionPolicy::Script(s) => ActionPolicy::Script(copy_bytes(s.as_slice())),
        }
    }
}

/// Whether the watched file is there (`Active`) or currently missing (`Pending`).
#[derive(PartialEq, Eq, Structural, Clone, Copy, Debug)]
pub enum WatchState {
    Active,
    Pending,
}

/// The kinds of filesystem change that the watcher reports.
#[derive(PartialEq, Eq, Structural, Clone, Copy, Debug)]
pub enum EventKind {
    Modified,
    Created,
    Deleted,
    Renamed,
}

pub open spec fn removes_file(kind: EventKind) -> bool {
    kind == EventKind::Deleted || kind == EventKind::Renamed
}

/// A tracked file with its policies and its watch state: `due` is the end of
/// the debounce window of a burst of events that has not fired yet.
pub struct TrackedFile {
    pub path: Vec<u8>,
    pub alias: AliasPolicy,
    pub action: ActionPolicy,
    pub state: WatchState,
    pub due: Option<u64>,
    pub last_kind: EventKind,
}

pub ghost struct TrackedView {
    pub path: Seq<u8>,
    pub alias: AliasSpec,
    pub action: ActionSpec,
    pub state: WatchState,
    pub due: Option<u64>,
    pub last_kind: EventKind,
}

impl View for TrackedFile {
    type V = TrackedView;

    open spec fn view(&self) -> TrackedView {
        TrackedView {
            path: self.path@,
            alias: self.alias@,
            action: self.action@,
            state: self.state,
            due: self.due,
            last_kind: self.last_kind,
        }
    }
}

impl TrackedFile {
    fn with_watch(&self, state: WatchState, due: Option<u64>, last_kind: EventKind) -> (r: TrackedFile)
        ensures
            r@ == (TrackedView { state, due, last_kind, ..self@ }),
    {
        TrackedFile {
            path: copy_bytes(self.path.as_slice()),
            alias: self.alias.duplicate(),
            action: self.action.duplicate(),
            state,
            due,
            last_kind,
        }
    }
}

/// A debounced change that is ready for its action.
pub struct Fired {
    pub path: Vec<u8>,
    pub kind: EventKind,
    pub alias: AliasPolicy,
    pub action: ActionPolicy,
}

pub ghost struct FiredView {
    pub path: Seq<u8>,
    pub kind: EventKind,
    pub alias: AliasSpec,
    pub action: ActionSpec,
}

impl View for Fired {
    type V = FiredView;

    open spec fn view(&self) -> FiredView {
        FiredView { path: self.path@, kind: self.kind, alias: self.alias@, action: self.action@ }
    }
}

pub open spec fn is_tracked(fs: Seq<TrackedView>, path: Seq<u8>) -> bool {
    exists|i: int| 0 <= i < fs.len() && (#[trigger] fs[i]).path == path
}

pub open spec fn tracked_index(fs: Seq<TrackedView>, path: Seq<u8>) -> int {
    choose|i: int| 0 <= i < fs.len() && (#[trigger] fs[i]).path == path
}

pub open spec fn paths_distinct(fs: Seq<TrackedView>) -> bool {
    forall|i: int, j: int| 0 <= i < j < fs.len() ==> (#[trigger] fs[i]).path != (#[trigger] fs[j]).path
}

/// A freshly tracked file: watching, no burst pending.
pub open spec fn fresh(path: Seq<u8>, alias: AliasSpec, action: ActionSpec) -> TrackedView {
    TrackedView {
        path,
        alias,
        action,
        state: WatchState::Active,
        due: None,
        last_kind: EventKind::Modified,
    }
}

/// Tracking `path`: its entry is replaced where it has one, else added last.
pub open spec fn track_spec(fs: Seq<TrackedView>, path: Seq<u8>, alias: AliasSpec, action: ActionSpec) -> Seq<TrackedView> {
    if is_tracked(fs, path) {
        fs.update(tracked_index(fs, path), fresh(path, alias, action))
    } else {
        fs.push(fresh(path, alias, action))
    }
}

/// The end of the debounce window opened at `now`.
pub open spec fn deadline(now: u64, window: u64) -> u64 {
    if now as int + window as int > u64::MAX as int {
        u64::MAX
    } else {
        (now + window) as u64
    }
}

/// An event of kind `kind` at time `now` on a tracked file.
pub open spec fn after_event(f: TrackedView, kind: EventKind, now: u64, window: u64) -> TrackedView {
    TrackedView {
        state: if removes_file(kind) { WatchState::Pending } else { WatchState::Active },
        due: Some(deadline(now, window)),
        last_kind: kind,
        ..f
    }
}

/// An event on `path`: it (re)arms the debounce deadline of a tracked path and
/// leaves everything as it is for any other path.
pub open spec fn event_spec(fs: Seq<TrackedView>, path: Seq<u8>, kind: EventKind, now: u64, window: u64) -> Seq<TrackedView> {
    if is_tracked(fs, path) {
        fs.update(tracked_index(fs, path), after_event(fs[tracked_index(fs, path)], kind, now, window))
    } else {
        fs
    }
}

pub open spec fn is_due(f: TrackedView, now: u64) -> bool {
    f.due matches Some(t) && t <= now
}

pub open spec fn fire_of(f: TrackedView) -> FiredView {
    FiredView { path: f.path, kind: f.last_kind, alias: f.alias, action: f.action }
}

/// The entries after firing at `now`: each due entry has its deadline cleared.
pub open spec fn settled(fs: Seq<TrackedView>, now: u64) -> Seq<TrackedView> {
    fs.map_values(|f: TrackedView| if is_due(f, now) { TrackedView { due: None, ..f } } else { f })
}

/// What fires at `now`: one change per due entry, in registry order.
pub open spec fn fired_at(fs: Seq<TrackedView>, now: u64) -> Seq<FiredView>
    decreases fs.len(),
{
    if fs.len() == 0 {
        seq![]
    } else {
        let rest = fired_at(fs.drop_last(), now);
        if is_due(fs.last(), now) {
            rest.push(fire_of(fs.last()))
        } else {
            rest
        }
    }
}

/// The tracked files, one entry per path, and the debounce window in the
/// clock's units.
pub struct Registry {
    pub files: Vec<TrackedFile>,
    pub window: u64,
}

impl View for Registry {
    type V = Seq<TrackedView>;

    open spec fn view(&self) -> Seq<TrackedView> {
        self.files@.map_values(|f: TrackedFile| f@)
    }
}

proof fn lemma_tracked_index(fs: Seq<TrackedView>, path: Seq<u8>, i: int)
    requires
        paths_distinct(fs),
        0 <= i < fs.len(),
        fs[i].path == path,
    ensures
        is_tracked(fs, path),
        tracked_index(fs, path) == i,
{
    let j = tracked_index(fs, path);
    if i < j {
        assert(fs[i].path != fs[j].path);
    } else if j < i {
        assert(fs[j].path != fs[i].path);
    }
}

impl Registry {
    pub open spec fn wf(&self) -> bool {
        paths_distinct(self@)
    }

    /// An empty registry whose bursts settle after `window`.
    pub fn new(window: u64) -> (r: Registry)
        ensures
            r.wf(),
            r@ == Seq::<TrackedView>::empty(),
            r.window == window,
    {
        let r = Registry { files: Vec::new(), window };
        assert(r@ =~= Seq::<TrackedView>::empty());
        r
    }

    /// The position of `path`'s entry, if it is tracked.
    pub fn position(&self, path: &[u8]) -> (r: Option<usize>)
        requires
            self.wf(),
        ensures
            r is None <==> !is_tracked(self@, path@),
            r matches Some(i) ==> i < self@.len() && i == tracked_index(self@, path@),
    {
        let mut i: usize = 0;
        while i < self.files.len()
            invariant
                self.wf(),
                i <= self@.len(),
                forall|k: int| 0 <= k < i ==> (#[trigger] self@[k]).path != path@,
            decreases self@.len() - i,
        {
            if compare_bytes(self.files[i].path.as_slice(), path) == 0 {
                proof {
                    lemma_tracked_index(self@, path@, i as int);
                }
                return Some(i);
            }
            i = i + 1;
        }
        None
    }

    /// Registers `path` with its policies, replacing those it had; its watch
    /// starts afresh.
    pub fn track(&mut self, path: &[u8], alias: AliasPolicy, action: ActionPolicy)
        requires
            old(self).wf(),
        ensures
            final(self).wf(),
            final(self).window == old(self).window,
            final(self)@ == track_spec(old(self)@, path@, alias@, action@),
    {
        let entry = TrackedFile {
            path: copy_bytes(path),
            alias,
            action,
            state: WatchState::Active,
            due: None,
            last_kind: EventKind::Modified,
        };
        let ghost before = self@;
        match self.position(path) {
            Some(i) => {
                self.files.set(i, entry);
                assert(self@ =~= before.update(i as int, entry@));
            },
            None => {
                self.files.push(entry);
                assert(self@ =~= before.push(entry@));
            },
        }
    }

    /// Stops watching `path`; its snapshots stay in the store. Returns whether
    /// it was tracked.
    pub fn untrack(&mut self, path: &[u8]) -> (r: bool)
        requires
            old(self).wf(),
        ensures
            final(self).wf(),
            final(self).window == old(self).window,
            r == is_tracked(old(self)@, path@),
            !is_tracked(final(self)@, path@),
            r ==> final(self)@ == old(self)@.remove(tracked_index(old(self)@, path@)),
            !r ==> final(self)@ == old(self)@,
    {
        let ghost before = self@;
        match self.position(path) {
            Some(i) => {
                let _ = self.files.remove(i);
                assert(self@ =~= before.remove(i as int));
                assert forall|k: int| 0 <= k < self@.len() implies (#[trigger] self@[k]).path != path@ by {
                    if k < i {
                        assert(before[k].path != before[i as int].path);
                    } else {
                        assert(before[i as int].path != before[k + 1].path);
                    }
                }
                true
            },
            None => false,
        }
    }

    /// Takes in a change event on `path` at time `now`.
    pub fn on_event(&mut self, path: &[u8], kind: EventKind, now: u64) -> (r: bool)
        requires
            old(self).wf(),
        ensures
            final(self).wf(),
            final(self).window == old(self).window,
            r == is_tracked(old(self)@, path@),
            final(self)@ == event_spec(old(self)@, path@, kind, now, old(self).window),
    {
        let ghost before = self@;
        match self.position(path) {
            Some(i) => {
                let due = self.window.checked_add(now).unwrap_or(u64::MAX);
                let state = if kind == EventKind::Deleted || kind == EventKind::Renamed {
                    WatchState::Pending
                } else {
                    WatchState::Active
                };
                let entry = self.files[i].with_watch(state, Some(due), kind);
                self.files.set(i, entry);
                assert(self@ =~= before.update(i as int, after_event(before[i as int], kind, now, self.window)));
                true
            },
            None => false,
        }
    }

    /// Fires every entry whose debounce deadline is at or before `now`, in
    /// registry order, and clears those deadlines.
    pub fn take_due(&mut self, now: u64) -> (r: Vec<Fired>)
        requires
            old(self).wf(),
        ensures
            final(self).wf(),
            final(self).window == old(self).window,
            final(self)@ == settled(old(self)@, now),
            r@.map_values(|f: Fired| f@) == fired_at(old(self)@, now),
    {
        let ghost before = self@;
        let mut out: Vec<Fired> = Vec::new();
        let mut i: usize = 0;
        while i < self.files.len()
            invariant
                i <= self@.len(),
                self@.len() == before.len(),
                self.window == old(self).window,
                forall|k: int| 0 <= k < i ==> #[trigger] self@[k] == settled(before, now)[k],
                forall|k: int| i <= k < self@.len() ==> #[trigger] self@[k] == before[k],
                out@.map_values(|f: Fired| f@) == fired_at(before.subrange(0, i as int), now),
            decreases self@.len() - i,
        {
            assert(before.subrange(0, i + 1).drop_last() =~= before.subrange(0, i as int));
            let f = &self.files[i];
            assert(self@[i as int] == before[i as int]);
            assert(f@ == self@[i as int]);
            let fire = match f.due {
                Some(t) => t <= now,
                None => false,
            };
            if fire {
                let ev = Fired {
                    path: copy_bytes(f.path.as_slice()),
                    kind: f.last_kind,
                    alias: f.alias.duplicate(),
                    action: f.action.duplicate(),
                };
                let entry = f.with_watch(f.state, None, f.last_kind);
                out.push(ev);
                assert(out@.map_values(|f: Fired| f@) =~= fired_at(before.subrange(0, i as int), now).push(fire_of(before[i as int])));
                let ghost mid = self@;
                self.files.set(i, entry);
                assert(self@ =~= mid.update(i as int, settled(before, now)[i as int]));
            } else {
                assert(settled(before, now)[i as int] == before[i as int]);
            }
            i = i + 1;
        }
        assert(before.subrange(0, i as int) =~= before);
        assert(self@ =~= settled(before, now));
        assert forall|a: int, b: int| 0 <= a < b < self@.len() implies (#[trigger] self@[a]).path != (#[trigger] self@[b]).path by {
            assert(self@[a].path == before[a].path);
            assert(self@[b].path == before[b].path);
        }
        out
    }
}

/// Once a path is untracked, change events on it alter nothing and nothing
/// fires for it: no action, and so no snapshot, can follow.
pub proof fn lemma_untracked_path_is_ignored(fs: Seq<TrackedView>, path: Seq<u8>, kind: EventKind, now: u64, window: u64)
    requires
        !is_tracked(fs, path),
    ensures
        event_spec(fs, path, kind, now, window) == fs,
        forall|k: int| 0 <= k < fired_at(fs, now).len() ==> (#[trigger] fired_at(fs, now)[k]).path != path,
    decreases fs.len(),
{
    if fs.len() > 0 {
        let d = fs.drop_last();
        assert(!is_tracked(d, path)) by {
            if is_tracked(d, path) {
                let j = tracked_index(d, path);
                assert(fs[j] == d[j]);
            }
        }
        lemma_untracked_path_is_ignored(d, path, kind, now, window);
        assert(fs[fs.len() - 1].path != path);
    }
}

/// A burst fires once: right after firing at `now`, firing again at `now`
/// finds nothing due.
pub proof fn lemma_fires_once(fs: Seq<TrackedView>, now: u64)
    ensures
        fired_at(settled(fs, now), now).len() == 0,
    decreases fs.len(),
{
    if fs.len() > 0 {
        lemma_fires_once(fs.drop_last(), now);
        assert(settled(fs, now).drop_last() =~= settled(fs.drop_last(), now));
    }
}

} // verus!
