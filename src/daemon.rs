//! The daemon's state and its decisions: answering control requests, taking in
//! change events, and recording snapshots for the files that ask for them.

use vstd::prelude::*;
use crate::store::{
    SnapshotStore, SummaryView, Summary, SelectError, listed, select_result, append_post, snapshot_of,
    copy_bytes, has_path,
};
use crate::watch::{
    Registry, AliasSpec, ActionSpec, AliasPolicy, ActionPolicy, EventKind, Fired, TrackedView, is_tracked,
    tracked_index, track_spec, event_spec, settled, fired_at,
};
use crate::wire::{Request, RequestSpec, DecodeError};
use vstd::utf8::encode_utf8;

verus! {

pub const SLASH: u8 = 47;

pub const NEWLINE: u8 = 10;

pub const SPACE: u8 = 32;

/// Concatenates two byte strings.
pub fn concat(a: &[u8], b: &[u8]) -> (r: Vec<u8>)
    ensures
        r@ == a@ + b@,
{
    let mut r = copy_bytes(a);
    let mut i: usize = 0;
    while i < b.len()
        invariant
            i <= b@.len(),
            r@ == a@ + b@.subrange(0, i as int),
        decreases b@.len() - i,
    {
        r.push(b[i]);
        assert(b@.subrange(0, i + 1) =~= b@.subrange(0, i as int).push(b@[i as int]));
        i = i + 1;
    }
    assert(b@.subrange(0, i as int) =~= b@);
    r
}

/// Where the last component of `p[..j]` starts.
pub open spec fn component_start(p: Seq<u8>, j: int) -> int
    decreases j,
{
    if j <= 0 || j > p.len() || p[j - 1] == SLASH {
        j
    } else {
        component_start(p, j - 1)
    }
}

/// The final component of a path: what follows its last `/`.
pub open spec fn basename(p: Seq<u8>) -> Seq<u8> {
    p.subrange(component_start(p, p.len() as int), p.len() as int)
}

/// Computes `basename(p)`.
pub fn file_name(p: &[u8]) -> (r: Vec<u8>)
    ensures
        r@ == basename(p@),
{
    let mut j: usize = p.len();
    while j > 0 && p[j - 1] != SLASH
        invariant
            j <= p@.len(),
            component_start(p@, p@.len() as int) == component_start(p@, j as int),
        decreases j,
    {
        j = j - 1;
    }
    copy_bytes(vstd::slice::slice_subrange(p, j, p.len()))
}

pub open spec fn is_space(c: u8) -> bool {
    c == SPACE || c == NEWLINE || c == 9 || c == 13
}

/// Where `s[i..]` stops starting with white space.
pub open spec fn trim_start_at(s: Seq<u8>, i: int) -> int
    decreases s.len() - i,
{
    if i < 0 || i >= s.len() || !is_space(s[i]) {
        i
    } else {
        trim_start_at(s, i + 1)
    }
}

/// Where `s[..j]`, read from index `lo` on, stops ending with white space.
pub open spec fn trim_end_at(s: Seq<u8>, lo: int, j: int) -> int
    decreases j - lo,
{
    if j <= lo || j > s.len() || !is_space(s[j - 1]) {
        j
    } else {
        trim_end_at(s, lo, j - 1)
    }
}

/// `s` without white space at either end.
pub open spec fn trim(s: Seq<u8>) -> Seq<u8> {
    let lo = trim_start_at(s, 0);
    s.subrange(lo, trim_end_at(s, lo, s.len() as int))
}

/// Computes `trim(s)`.
pub fn trim_spaces(s: &[u8]) -> (r: Vec<u8>)
    ensures
        r@ == trim(s@),
{
    let mut lo: usize = 0;
    while lo < s.len() && (s[lo] == SPACE || s[lo] == NEWLINE || s[lo] == 9 || s[lo] == 13)
        invariant
            lo <= s@.len(),
            trim_start_at(s@, 0) == trim_start_at(s@, lo as int),
        decreases s@.len() - lo,
    {
        lo = lo + 1;
    }
    let mut hi: usize = s.len();
    while hi > lo && (s[hi - 1] == SPACE || s[hi - 1] == NEWLINE || s[hi - 1] == 9 || s[hi - 1] == 13)
        invariant
            lo <= hi <= s@.len(),
            lo == trim_start_at(s@, 0),
            trim_end_at(s@, lo as int, s@.len() as int) == trim_end_at(s@, lo as int, hi as int),
        decreases hi,
    {
        hi = hi - 1;
    }
    copy_bytes(vstd::slice::slice_subrange(s, lo, hi))
}

/// The label of a changed file. Under `Basename` it is the path's final
/// component. Under a script it is the script's output, trimmed, where the
/// script succeeded with some output (`output`), and the final component
/// otherwise.
pub open spec fn alias_for(path: Seq<u8>, policy: AliasSpec, output: Option<Seq<u8>>) -> Seq<u8> {
    match (policy, output) {
        (AliasSpec::Script(_), Some(o)) => if trim(o).len() > 0 { trim(o) } else { basename(path) },
        _ => basename(path),
    }
}

/// Computes `alias_for(path, policy, output)`.
pub fn resolve_alias(path: &[u8], policy: &AliasPolicy, output: Option<&[u8]>) -> (r: Vec<u8>)
    ensures
        r@ == alias_for(path@, policy@, match output { Some(o) => Some(o@), None => None }),
{
    match (policy, output) {
        (AliasPolicy::Script(_), Some(o)) => {
            let t = trim_spaces(o);
            if t.len() > 0 {
                t
            } else {
                file_name(path)
            }
        },
        _ => file_name(path),
    }
}

/// The name under which an event kind is handed to scripts.
pub open spec fn event_name_spec(kind: EventKind) -> Seq<u8> {
    encode_utf8(match kind {
        EventKind::Modified => "modified"@,
        EventKind::Created => "created"@,
        EventKind::Deleted => "deleted"@,
        EventKind::Renamed => "renamed"@,
    })
}

pub fn event_name(kind: EventKind) -> (r: Vec<u8>)
    ensures
        r@ == event_name_spec(kind),
{
    let s = match kind {
        EventKind::Modified => "modified",
        EventKind::Created => "created",
        EventKind::Deleted => "deleted",
        EventKind::Renamed => "renamed",
    };
    copy_bytes(s.as_bytes())
}

/// One line of a listing: the path, a space, and the latest digest or `-`.
pub open spec fn summary_line(s: SummaryView) -> Seq<u8> {
    s.path + seq![SPACE] + match s.latest {
        Some(l) => l.0,
        None => encode_utf8("-"@),
    }
}

/// A listing: its lines joined by newlines.
pub open spec fn list_text(ss: Seq<SummaryView>) -> Seq<u8>
    decreases ss.len(),
{
    if ss.len() == 0 {
        seq![]
    } else if ss.len() == 1 {
        summary_line(ss[0])
    } else {
        list_text(ss.drop_last()) + seq![NEWLINE] + summary_line(ss.last())
    }
}

fn summary_text(s: &Summary) -> (r: Vec<u8>)
    ensures
        r@ == summary_line(s@),
{
    let head = concat(s.path.as_slice(), &[SPACE]);
    assert(seq![SPACE] =~= [SPACE]@);
    match &s.latest {
        Some(l) => concat(head.as_slice(), l.0.as_slice()),
        None => concat(head.as_slice(), "-".as_bytes()),
    }
}

/// Writes out a listing.
pub fn render_list(ss: &Vec<Summary>) -> (r: Vec<u8>)
    ensures
        r@ == list_text(ss@.map_values(|s: Summary| s@)),
{
    let ghost sv = ss@.map_values(|s: Summary| s@);
    let mut out: Vec<u8> = Vec::new();
    let mut i: usize = 0;
    while i < ss.len()
        invariant
            sv == ss@.map_values(|s: Summary| s@),
            i <= ss@.len(),
            out@ == list_text(sv.subrange(0, i as int)),
        decreases ss@.len() - i,
    {
        let line = summary_text(&ss[i]);
        assert(sv.subrange(0, i + 1).drop_last() =~= sv.subrange(0, i as int));
        if i == 0 {
            out = line;
        } else {
            let with_sep = concat(out.as_slice(), &[NEWLINE]);
            assert([NEWLINE]@ =~= seq![NEWLINE]);
            out = concat(with_sep.as_slice(), line.as_slice());
        }
        i = i + 1;
    }
    assert(sv.subrange(0, i as int) =~= sv);
    out
}

pub open spec fn select_error_text(e: SelectError) -> Seq<u8> {
    encode_utf8(
        match e {
            SelectError::NotFound => "error: no such snapshot"@,
            SelectError::Ambiguous => "error: ambiguous hash prefix"@,
        },
    )
}

pub open spec fn decode_error_text(e: DecodeError) -> Seq<u8> {
    encode_utf8(
        match e {
            DecodeError::Malformed => "error: malformed packet"@,
            DecodeError::Unsupported => "error: unsupported command"@,
        },
    )
}

/// The reply to a packet that could not be decoded.
pub fn decode_error_reply(e: DecodeError) -> (r: Vec<u8>)
    ensures
        r@ == decode_error_text(e),
{
    match e {
        DecodeError::Malformed => copy_bytes("error: malformed packet".as_bytes()),
        DecodeError::Unsupported => copy_bytes("error: unsupported command".as_bytes()),
    }
}

/// The reply to a request, given the histories when it is answered.
pub open spec fn reply_spec(hs: Seq<crate::store::HistoryView>, fs: Seq<TrackedView>, q: RequestSpec) -> Seq<u8> {
    match q {
        RequestSpec::Track { path, .. } => encode_utf8("tracking "@) + path,
        RequestSpec::Untrack { path } => if is_tracked(fs, path) {
            encode_utf8("untracked "@) + path
        } else {
            encode_utf8("error: not tracked: "@) + path
        },
        RequestSpec::List { pattern } => list_text(listed(hs, pattern)),
        RequestSpec::Select { path, prefix } => match select_result(hs, path, prefix) {
            Ok(s) => s.payload,
            Err(e) => select_error_text(e),
        },
        RequestSpec::Echo { msg } => msg,
        RequestSpec::Echoerr { msg } => encode_utf8("error: "@) + msg,
    }
}

/// The daemon's whole state: the tracked files and the snapshot store.
pub struct Daemon {
    pub registry: Registry,
    pub store: SnapshotStore,
}

impl Daemon {
    pub open spec fn wf(&self) -> bool {
        self.registry.wf() && self.store.wf()
    }

    /// A daemon that tracks nothing yet, with the given debounce window.
    pub fn new(window: u64) -> (r: Daemon)
        ensures
            r.wf(),
            r.registry@ == Seq::<TrackedView>::empty(),
            r.registry.window == window,
            r.store@ == Seq::<crate::store::HistoryView>::empty(),
    {
        Daemon { registry: Registry::new(window), store: SnapshotStore::new() }
    }

    /// A daemon over a store loaded from disk, tracking nothing yet.
    pub fn with_store(store: SnapshotStore, window: u64) -> (r: Daemon)
        requires
            store.wf(),
        ensures
            r.wf(),
            r.registry@ == Seq::<TrackedView>::empty(),
            r.registry.window == window,
            r.store@ == store@,
    {
        Daemon { registry: Registry::new(window), store }
    }

    /// Carries out one control request and returns the reply. Tracking
    /// registers the path (replacing its policies) and gives it a history;
    /// untracking stops its watch; the other requests change nothing.
    pub fn execute(&mut self, q: Request) -> (r: Vec<u8>)
        requires
            old(self).wf(),
        ensures
            final(self).wf(),
            final(self).registry.window == old(self).registry.window,
            r@ == reply_spec(old(self).store@, old(self).registry@, q@),
            match q@ {
                RequestSpec::Track { path, alias, action } => {
                    &&& final(self).registry@ == track_spec(old(self).registry@, path, alias, action)
                    &&& has_path(old(self).store@, path) ==> final(self).store@ == old(self).store@
                    &&& !has_path(old(self).store@, path) ==> exists|k: int|
                        0 <= k <= old(self).store@.len() && final(self).store@ == old(self).store@.insert(
                            k,
                            crate::store::HistoryView { path, snaps: seq![] },
                        )
                },
                RequestSpec::Untrack { path } => {
                    &&& final(self).store@ == old(self).store@
                    &&& !is_tracked(final(self).registry@, path)
                    &&& is_tracked(old(self).registry@, path) ==> final(self).registry@
                        == old(self).registry@.remove(tracked_index(old(self).registry@, path))
                    &&& !is_tracked(old(self).registry@, path) ==> final(self).registry@ == old(self).registry@
                },
                _ => final(self).registry@ == old(self).registry@ && final(self).store@ == old(self).store@,
            },
    {
        match q {
            Request::Track { path, alias, action } => {
                self.registry.track(path.as_slice(), alias, action);
                let _ = self.store.track(path.as_slice());
                concat("tracking ".as_bytes(), path.as_slice())
            },
            Request::Untrack { path } => {
                if self.registry.untrack(path.as_slice()) {
                    concat("untracked ".as_bytes(), path.as_slice())
                } else {
                    concat("error: not tracked: ".as_bytes(), path.as_slice())
                }
            },
            Request::List { pattern } => {
                let ss = self.store.list(pattern.as_slice());
                render_list(&ss)
            },
            Request::Select { path, prefix } => match self.store.select(path.as_slice(), prefix.as_slice()) {
                Ok(s) => s.payload,
                Err(SelectError::NotFound) => copy_bytes("error: no such snapshot".as_bytes()),
                Err(SelectError::Ambiguous) => copy_bytes("error: ambiguous hash prefix".as_bytes()),
            },
            Request::Echo { msg } => msg,
            Request::Echoerr { msg } => concat("error: ".as_bytes(), msg.as_slice()),
        }
    }

    /// Takes in a change event on `path` at time `now`; returns whether the
    /// path is tracked.
    pub fn on_event(&mut self, path: &[u8], kind: EventKind, now: u64) -> (r: bool)
        requires
            old(self).wf(),
        ensures
            final(self).wf(),
            final(self).registry.window == old(self).registry.window,
            r == is_tracked(old(self).registry@, path@),
            final(self).registry@ == event_spec(old(self).registry@, path@, kind, now, old(self).registry.window),
            final(self).store@ == old(self).store@,
    {
        self.registry.on_event(path, kind, now)
    }

    /// The changes whose debounce window has passed at `now`, each once.
    pub fn take_due(&mut self, now: u64) -> (r: Vec<Fired>)
        requires
            old(self).wf(),
        ensures
            final(self).wf(),
            final(self).registry.window == old(self).registry.window,
            final(self).registry@ == settled(old(self).registry@, now),
            r@.map_values(|f: Fired| f@) == fired_at(old(self).registry@, now),
            final(self).store@ == old(self).store@,
    {
        self.registry.take_due(now)
    }

    /// Records `payload` as the newest snapshot of `path`, where `path` is
    /// tracked and its action is to save snapshots; otherwise nothing changes.
    pub fn record_snapshot(&mut self, path: &[u8], payload: Vec<u8>, now: u64) -> (r: Option<crate::store::Snapshot>)
        requires
            old(self).wf(),
            crate::digest::digestible(payload@),
        ensures
            final(self).wf(),
            final(self).registry == old(self).registry,
            match r {
                Some(s) => {
                    &&& is_tracked(old(self).registry@, path@)
                    &&& old(self).registry@[tracked_index(old(self).registry@, path@)].action == ActionSpec::SaveSnapshot
                    &&& s@ == snapshot_of(path@, payload@, now)
                    &&& append_post(old(self).store@, final(self).store@, path@, s@)
                },
                None => {
                    &&& !(is_tracked(old(self).registry@, path@)
                        && old(self).registry@[tracked_index(old(self).registry@, path@)].action == ActionSpec::SaveSnapshot)
                    &&& final(self).store@ == old(self).store@
                },
            },
    {
        match self.registry.position(path) {
            Some(i) => {
                let saves = match &self.registry.files[i].action {
                    ActionPolicy::SaveSnapshot => true,
                    ActionPolicy::Script(_) => false,
                };
                assert(self.registry@[i as int] == self.registry.files@[i as int]@);
                if saves {
                    Some(self.store.append(path, payload, now))
                } else {
                    None
                }
            },
            None => None,
        }
    }
}

} // verus!
