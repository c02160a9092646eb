//! The snapshot store: for each path, the append-only history of its
//! content-addressed snapshots, kept in path order.

use vstd::prelude::*;
use crate::bytes::{lex_lt, is_prefix, lemma_lex_order, compare_bytes, starts_with};
use crate::digest::{content_digest, digest, digestible};
use crate::glob::{pattern_selects, selects};

verus! {

/// Copies a byte slice into a fresh vector.
pub fn copy_bytes(b: &[u8]) -> (r: Vec<u8>)
    ensures
        r@ == b@,
{
    vstd::slice::slice_to_vec(b)
}

/// One captured version of a tracked file.
pub struct Snapshot {
    pub owner_path: Vec<u8>,
    pub content_hash: Vec<u8>,
    pub captured_at: u64,
    pub payload: Vec<u8>,
}

pub ghost struct SnapshotView {
    pub owner_path: Seq<u8>,
    pub content_hash: Seq<u8>,
    pub captured_at: u64,
    pub payload: Seq<u8>,
}

impl View for Snapshot {
    type V = SnapshotView;

    open spec fn view(&self) -> SnapshotView {
        SnapshotView {
            owner_path: self.owner_path@,
            content_hash: self.content_hash@,
            captured_at: self.captured_at,
            payload: self.payload@,
        }
    }
}

/// The snapshot that capturing `payload` for `path` at time `at` creates.
pub open spec fn snapshot_of(path: Seq<u8>, payload: Seq<u8>, at: u64) -> SnapshotView {
    SnapshotView {
        owner_path: path,
        content_hash: content_digest(payload),
        captured_at: at,
        payload,
    }
}

impl Snapshot {
    /// A field-by-field copy.
    pub fn duplicate(&self) -> (r: Snapshot)
        ensures
            r@ == self@,
    {
        Snapshot {
            owner_path: copy_bytes(self.owner_path.as_slice()),
            content_hash: copy_bytes(self.content_hash.as_slice()),
            captured_at: self.captured_at,
            payload: copy_bytes(self.payload.as_slice()),
        }
    }
}

/// The snapshots of one path, oldest first.
pub struct History {
    pub path: Vec<u8>,
    pub snaps: Vec<Snapshot>,
}

pub ghost struct HistoryView {
    pub path: Seq<u8>,
    pub snaps: Seq<SnapshotView>,
}

impl View for History {
    type V = HistoryView;

    open spec fn view(&self) -> HistoryView {
        HistoryView { path: self.path@, snaps: self.snaps@.map_values(|s: Snapshot| s@) }
    }
}

/// What a listing shows of one path: how many snapshots it has and the
/// digest and time of the latest one.
pub struct Summary {
    pub path: Vec<u8>,
    pub snapshots: usize,
    pub latest: Option<(Vec<u8>, u64)>,
}

pub ghost struct SummaryView {
    pub path: Seq<u8>,
    pub snapshots: nat,
    pub latest: Option<(Seq<u8>, u64)>,
}

impl View for Summary {
    type V = SummaryView;

    open spec fn view(&self) -> SummaryView {
        SummaryView {
            path: self.path@,
            snapshots: self.snapshots as nat,
            latest: match self.latest {
                Some(l) => Some((l.0@, l.1)),
                None => None,
            },
        }
    }
}

pub open spec fn summary_of(h: HistoryView) -> SummaryView {
    SummaryView {
        path: h.path,
        snapshots: h.snaps.len(),
        latest: if h.snaps.len() == 0 {
            None
        } else {
            Some((h.snaps.last().content_hash, h.snaps.last().captured_at))
        },
    }
}

/// The summaries of the histories whose path `pattern` selects, in store order.
pub open spec fn listed(hs: Seq<HistoryView>, pattern: Seq<u8>) -> Seq<SummaryView>
    decreases hs.len(),
{
    if hs.len() == 0 {
        seq![]
    } else {
        let rest = listed(hs.drop_last(), pattern);
        if pattern_selects(pattern, hs.last().path) {
            rest.push(summary_of(hs.last()))
        } else {
            rest
        }
    }
}

/// The snapshots of `snaps` whose digest starts with `prefix`, in order.
pub open spec fn matching(snaps: Seq<SnapshotView>, prefix: Seq<u8>) -> Seq<SnapshotView>
    decreases snaps.len(),
{
    if snaps.len() == 0 {
        seq![]
    } else {
        let rest = matching(snaps.drop_last(), prefix);
        if is_prefix(prefix, snaps.last().content_hash) {
            rest.push(snaps.last())
        } else {
            rest
        }
    }
}

/// Why a selection found no single snapshot.
#[derive(PartialEq, Eq, Structural, Clone, Copy, Debug)]
pub enum SelectError {
    NotFound,
    Ambiguous,
}

/// How appending snapshot `snap` for `path` changes the histories: the path's
/// history grows by `snap` at its end, or a new history holding only `snap`
/// takes its place in path order.
pub open spec fn append_post(before: Seq<HistoryView>, after: Seq<HistoryView>, path: Seq<u8>, snap: SnapshotView) -> bool {
    &&& has_path(before, path) ==> after == before.update(
        index_of(before, path),
        HistoryView { path, snaps: before[index_of(before, path)].snaps.push(snap) },
    )
    &&& !has_path(before, path) ==> exists|k: int|
        0 <= k <= before.len() && after == before.insert(k, HistoryView { path, snaps: seq![snap] })
}

proof fn lemma_matching_mono(s: Seq<SnapshotView>, prefix: Seq<u8>, n: int)
    requires
        0 <= n <= s.len(),
    ensures
        matching(s.subrange(0, n), prefix).len() <= matching(s, prefix).len(),
    decreases s.len(),
{
    if n == s.len() {
        assert(s.subrange(0, n) =~= s);
    } else {
        assert(s.drop_last().subrange(0, n) =~= s.subrange(0, n));
        lemma_matching_mono(s.drop_last(), prefix, n);
    }
}

/// Appending a payload and then selecting by the digest that came back gives
/// back that very snapshot, payload included, unless an earlier snapshot of the
/// path already starts with that digest.
pub proof fn lemma_append_then_select(
    before: Seq<HistoryView>,
    after: Seq<HistoryView>,
    path: Seq<u8>,
    payload: Seq<u8>,
    at: u64,
)
    requires
        sorted_by_path(before),
        sorted_by_path(after),
        append_post(before, after, path, snapshot_of(path, payload, at)),
        has_path(before, path) ==> matching(before[index_of(before, path)].snaps, content_digest(payload)).len() == 0,
    ensures
        select_result(after, path, content_digest(payload)) == Ok::<SnapshotView, SelectError>(snapshot_of(path, payload, at)),
        select_result(after, path, content_digest(payload)) matches Ok(s) && s.payload == payload,
{
    let r = snapshot_of(path, payload, at);
    let h = content_digest(payload);
    assert(is_prefix(h, r.content_hash)) by {
        assert(h.subrange(0, h.len() as int) =~= h);
    }
    if has_path(before, path) {
        let i = index_of(before, path);
        let ns = before[i].snaps.push(r);
        assert(ns.drop_last() =~= before[i].snaps);
        assert(after[i].path == path);
        lemma_unique_index(after, path, i);
        assert(matching(ns, h) =~= seq![r]);
    } else {
        let k = choose|k: int|
            0 <= k <= before.len() && after == before.insert(k, HistoryView { path, snaps: seq![r] });
        assert(after[k].path == path);
        lemma_unique_index(after, path, k);
        assert(seq![r].drop_last() =~= Seq::<SnapshotView>::empty());
        assert(seq![r].last() == r);
        assert(matching(Seq::<SnapshotView>::empty(), h) =~= Seq::<SnapshotView>::empty());
        assert(matching(seq![r], h) == Seq::<SnapshotView>::empty().push(r));
        assert(matching(seq![r], h) =~= seq![r]);
    }
}

/// Where two snapshots of a path both start with `prefix`, selecting it is
/// refused as ambiguous: no one of them is picked.
pub proof fn lemma_select_ambiguous(hs: Seq<HistoryView>, path: Seq<u8>, prefix: Seq<u8>, a: int, b: int)
    requires
        sorted_by_path(hs),
        has_path(hs, path),
        0 <= a < b < hs[index_of(hs, path)].snaps.len(),
        is_prefix(prefix, hs[index_of(hs, path)].snaps[a].content_hash),
        is_prefix(prefix, hs[index_of(hs, path)].snaps[b].content_hash),
    ensures
        select_result(hs, path, prefix) == Err::<SnapshotView, SelectError>(SelectError::Ambiguous),
{
    let s = hs[index_of(hs, path)].snaps;
    assert(s.subrange(0, a + 1).drop_last() =~= s.subrange(0, a));
    assert(s.subrange(0, b + 1).drop_last() =~= s.subrange(0, b));
    assert(s.subrange(0, b).subrange(0, a + 1) =~= s.subrange(0, a + 1));
    lemma_matching_mono(s.subrange(0, b), prefix, a + 1);
    lemma_matching_mono(s, prefix, b + 1);
}

proof fn lemma_sorted_by_elements(a: Seq<HistoryView>, b: Seq<HistoryView>)
    requires
        sorted_by_path(a),
        sorted_by_path(b),
        forall|x: HistoryView| a.contains(x) <==> b.contains(x),
    ensures
        a == b,
    decreases a.len(),
{
    if a.len() == 0 || b.len() == 0 {
        if b.len() > 0 {
            assert(b.contains(b[0]));
        }
        if a.len() > 0 {
            assert(a.contains(a[0]));
        }
        assert(a =~= b);
    } else {
        let la = a.last();
        let lb = b.last();
        assert(a.contains(la));
        assert(b.contains(lb));
        let j = choose|j: int| 0 <= j < b.len() && b[j] == la;
        let k = choose|k: int| 0 <= k < a.len() && a[k] == lb;
        if la != lb {
            assert(j < b.len() - 1);
            assert(k < a.len() - 1);
            assert(lex_lt(b[j].path, lb.path));
            assert(lex_lt(a[k].path, la.path));
            lemma_lex_order(la.path, lb.path, la.path);
        }
        let a2 = a.drop_last();
        let b2 = b.drop_last();
        assert forall|x: HistoryView| a2.contains(x) implies b2.contains(x) by {
            let i = choose|i: int| 0 <= i < a2.len() && a2[i] == x;
            assert(a.contains(x)) by { assert(a[i] == x); }
            let m = choose|m: int| 0 <= m < b.len() && b[m] == x;
            assert(lex_lt(a[i].path, la.path));
            lemma_lex_order(la.path, la.path, la.path);
            assert(m != b.len() - 1);
            assert(b2[m] == x);
        }
        assert forall|x: HistoryView| b2.contains(x) implies a2.contains(x) by {
            let i = choose|i: int| 0 <= i < b2.len() && b2[i] == x;
            assert(b.contains(x)) by { assert(b[i] == x); }
            let m = choose|m: int| 0 <= m < a.len() && a[m] == x;
            assert(lex_lt(b[i].path, lb.path));
            lemma_lex_order(lb.path, lb.path, lb.path);
            assert(m != a.len() - 1);
            assert(a2[m] == x);
        }
        lemma_sorted_by_elements(a2, b2);
        assert(a =~= a2.push(la));
        assert(b =~= b2.push(lb));
    }
}

/// Listing `*` shows every history, one summary each, in path order.
pub proof fn lemma_list_all(hs: Seq<HistoryView>)
    ensures
        listed(hs, seq![crate::glob::STAR]) == hs.map_values(|h: HistoryView| summary_of(h)),
    decreases hs.len(),
{
    if hs.len() > 0 {
        lemma_list_all(hs.drop_last());
        assert(hs.map_values(|h: HistoryView| summary_of(h)) =~= hs.drop_last().map_values(
            |h: HistoryView| summary_of(h),
        ).push(summary_of(hs.last())));
    } else {
        assert(hs.map_values(|h: HistoryView| summary_of(h)) =~= Seq::<SummaryView>::empty());
    }
}

/// A listing depends on which histories the store holds, not on the order in
/// which their paths were first seen: two well-formed stores that hold the
/// same histories list alike.
pub proof fn lemma_list_order_independent(a: Seq<HistoryView>, b: Seq<HistoryView>, pattern: Seq<u8>)
    requires
        sorted_by_path(a),
        sorted_by_path(b),
        forall|x: HistoryView| a.contains(x) <==> b.contains(x),
    ensures
        listed(a, pattern) == listed(b, pattern),
{
    lemma_sorted_by_elements(a, b);
}

/// Histories of all paths seen, sorted by path with no path twice.
pub struct SnapshotStore {
    pub histories: Vec<History>,
}

pub open spec fn sorted_by_path(hs: Seq<HistoryView>) -> bool {
    forall|i: int, j: int| 0 <= i < j < hs.len() ==> lex_lt(#[trigger] hs[i].path, #[trigger] hs[j].path)
}

pub open spec fn histories_consistent(hs: Seq<HistoryView>) -> bool {
    forall|i: int, k: int|
        0 <= i < hs.len() && 0 <= k < hs[i].snaps.len() ==> {
            &&& (#[trigger] hs[i].snaps[k]).owner_path == hs[i].path
            &&& hs[i].snaps[k].content_hash == content_digest(hs[i].snaps[k].payload)
        }
}

pub open spec fn has_path(hs: Seq<HistoryView>, path: Seq<u8>) -> bool {
    exists|i: int| 0 <= i < hs.len() && (#[trigger] hs[i]).path == path
}

/// The position of `path`'s history, where it has one.
pub open spec fn index_of(hs: Seq<HistoryView>, path: Seq<u8>) -> int {
    choose|i: int| 0 <= i < hs.len() && (#[trigger] hs[i]).path == path
}

/// What selecting `prefix` in `path`'s history gives.
pub open spec fn select_result(hs: Seq<HistoryView>, path: Seq<u8>, prefix: Seq<u8>) -> Result<SnapshotView, SelectError> {
    if !has_path(hs, path) {
        Err(SelectError::NotFound)
    } else {
        let m = matching(hs[index_of(hs, path)].snaps, prefix);
        if m.len() == 0 {
            Err(SelectError::NotFound)
        } else if m.len() > 1 {
            Err(SelectError::Ambiguous)
        } else {
            Ok(m[0])
        }
    }
}

proof fn lemma_unique_index(hs: Seq<HistoryView>, path: Seq<u8>, i: int)
    requires
        sorted_by_path(hs),
        0 <= i < hs.len(),
        hs[i].path == path,
    ensures
        has_path(hs, path),
        index_of(hs, path) == i,
{
    let j = index_of(hs, path);
    if j != i {
        lemma_lex_order(path, path, path);
        if j < i {
            assert(lex_lt(hs[j].path, hs[i].path));
        } else {
            assert(lex_lt(hs[i].path, hs[j].path));
        }
    }
}

impl View for SnapshotStore {
    type V = Seq<HistoryView>;

    open spec fn view(&self) -> Seq<HistoryView> {
        self.histories@.map_values(|h: History| h@)
    }
}

impl SnapshotStore {
    pub open spec fn wf(&self) -> bool {
        sorted_by_path(self@) && histories_consistent(self@)
    }

    /// An empty store.
    pub fn new() -> (r: SnapshotStore)
        ensures
            r.wf(),
            r@ == Seq::<HistoryView>::empty(),
    {
        let r = SnapshotStore { histories: Vec::new() };
        assert(r@ =~= Seq::<HistoryView>::empty());
        r
    }

    /// The position of `path`'s history, if it has one.
    pub fn find(&self, path: &[u8]) -> (r: Option<usize>)
        requires
            self.wf(),
        ensures
            r is None <==> !has_path(self@, path@),
            r matches Some(i) ==> i == index_of(self@, path@) && i < self@.len() && self@[i as int].path == path@,
    {
        let mut i: usize = 0;
        while i < self.histories.len()
            invariant
                self.wf(),
                i <= self.histories@.len(),
                forall|k: int| 0 <= k < i ==> (#[trigger] self@[k]).path != path@,
            decreases self.histories@.len() - i,
        {
            if compare_bytes(self.histories[i].path.as_slice(), path) == 0 {
                proof {
                    lemma_unique_index(self@, path@, i as int);
                }
                return Some(i);
            }
            i = i + 1;
        }
        None
    }

    /// Makes sure that `path` has a history, inserting an empty one in path
    /// order where it has none, and returns its position.
    pub fn track(&mut self, path: &[u8]) -> (r: usize)
        requires
            old(self).wf(),
        ensures
            final(self).wf(),
            r < final(self)@.len(),
            final(self)@[r as int].path == path@,
            has_path(old(self)@, path@) ==> final(self)@ == old(self)@,
            !has_path(old(self)@, path@) ==> r <= old(self)@.len(),
            !has_path(old(self)@, path@) ==> final(self)@ == old(self)@.insert(
                r as int,
                HistoryView { path: path@, snaps: seq![] },
            ),
    {
        let mut i: usize = 0;
        while i < self.histories.len()
            invariant
                self.wf(),
                i <= self.histories@.len(),
                forall|k: int| 0 <= k < i ==> lex_lt(#[trigger] self@[k].path, path@),
            ensures
                i <= self.histories@.len(),
                forall|k: int| 0 <= k < i ==> lex_lt(#[trigger] self@[k].path, path@),
                i < self.histories@.len() ==> lex_lt(path@, self@[i as int].path),
            decreases self.histories@.len() - i,
        {
            let c = compare_bytes(self.histories[i].path.as_slice(), path);
            if c == 0 {
                return i;
            }
            if c > 0 {
                break;
            }
            i = i + 1;
        }
        proof {
            assert forall|k: int| i <= k < self@.len() implies lex_lt(path@, #[trigger] self@[k].path) by {
                if k > i {
                    assert(lex_lt(self@[i as int].path, self@[k].path));
                    lemma_lex_order(path@, self@[i as int].path, self@[k].path);
                }
            }
            assert forall|k: int| 0 <= k < self@.len() implies #[trigger] self@[k].path != path@ by {
                lemma_lex_order(path@, path@, path@);
                if k < i {
                    assert(lex_lt(self@[k].path, path@));
                } else {
                    assert(lex_lt(path@, self@[k].path));
                }
            }
        }
        let ghost old_view = self@;
        let h = History { path: copy_bytes(path), snaps: Vec::new() };
        assert(h@.snaps =~= Seq::<SnapshotView>::empty());
        self.histories.insert(i, h);
        assert(self@ =~= old_view.insert(i as int, HistoryView { path: path@, snaps: seq![] }));
        assert forall|a: int, b: int| 0 <= a < b < self@.len() implies lex_lt(
            #[trigger] self@[a].path,
            #[trigger] self@[b].path,
        ) by {
            if b < i {
                assert(lex_lt(old_view[a].path, old_view[b].path));
            } else if a > i {
                assert(lex_lt(old_view[a - 1].path, old_view[b - 1].path));
            } else if a < i && b == i {
                assert(lex_lt(old_view[a].path, path@));
            } else if a == i {
                assert(lex_lt(path@, old_view[b - 1].path));
            } else {
                assert(lex_lt(old_view[a].path, path@));
                assert(lex_lt(path@, old_view[b - 1].path));
                lemma_lex_order(old_view[a].path, path@, old_view[b - 1].path);
            }
        }
        i
    }

    /// Captures `payload` as the newest snapshot of `path` at time `at`, and
    /// returns the record.
    pub fn append(&mut self, path: &[u8], payload: Vec<u8>, at: u64) -> (r: Snapshot)
        requires
            old(self).wf(),
            digestible(payload@),
        ensures
            final(self).wf(),
            r@ == snapshot_of(path@, payload@, at),
            append_post(old(self)@, final(self)@, path@, r@),
    {
        let ghost before = self@;
        let i = self.track(path);
        proof {
            lemma_unique_index(self@, path@, i as int);
            if has_path(before, path@) {
                lemma_unique_index(before, path@, i as int);
            }
        }
        let snap = Snapshot {
            owner_path: copy_bytes(path),
            content_hash: digest(payload.as_slice()),
            captured_at: at,
            payload,
        };
        let record = snap.duplicate();
        let ghost mid = self@;
        let mut h = self.histories.remove(i);
        assert(h@ == mid[i as int]);
        h.snaps.push(snap);
        assert(h@.snaps =~= mid[i as int].snaps.push(record@));
        let ghost hv = h@;
        self.histories.insert(i, h);
        assert(self@ =~= mid.update(i as int, hv));
        proof {
            if !has_path(before, path@) {
                assert(i <= before.len());
                assert(mid[i as int].snaps.push(record@) =~= seq![record@]);
                assert(self@ =~= before.insert(i as int, HistoryView { path: path@, snaps: seq![record@] }));
            }
        }
        record
    }

    /// Summaries of the histories whose path `pattern` selects, in path order.
    pub fn list(&self, pattern: &[u8]) -> (r: Vec<Summary>)
        requires
            self.wf(),
        ensures
            r@.map_values(|s: Summary| s@) == listed(self@, pattern@),
    {
        let mut out: Vec<Summary> = Vec::new();
        let mut i: usize = 0;
        while i < self.histories.len()
            invariant
                self.wf(),
                i <= self@.len(),
                out@.map_values(|s: Summary| s@) == listed(self@.subrange(0, i as int), pattern@),
            decreases self@.len() - i,
        {
            let h = &self.histories[i];
            assert(self@.subrange(0, i + 1).drop_last() =~= self@.subrange(0, i as int));
            assert(self@[i as int] == h@);
            if selects(pattern, h.path.as_slice()) {
                let n = h.snaps.len();
                let latest = if n == 0 {
                    None
                } else {
                    Some((copy_bytes(h.snaps[n - 1].content_hash.as_slice()), h.snaps[n - 1].captured_at))
                };
                let s = Summary { path: copy_bytes(h.path.as_slice()), snapshots: n, latest };
                assert(s@ == summary_of(h@));
                out.push(s);
                assert(out@.map_values(|s: Summary| s@) =~= listed(self@.subrange(0, i as int), pattern@).push(summary_of(h@)));
            }
            i = i + 1;
        }
        assert(self@.subrange(0, i as int) =~= self@);
        out
    }

    /// The one snapshot of `path` whose digest starts with `prefix`.
    pub fn select(&self, path: &[u8], prefix: &[u8]) -> (r: Result<Snapshot, SelectError>)
        requires
            self.wf(),
        ensures
            match r {
                Ok(s) => select_result(self@, path@, prefix@) == Ok::<SnapshotView, SelectError>(s@),
                Err(e) => select_result(self@, path@, prefix@) == Err::<SnapshotView, SelectError>(e),
            },
    {
        let i = match self.find(path) {
            Some(i) => i,
            None => return Err(SelectError::NotFound),
        };
        let snaps = &self.histories[i].snaps;
        let ghost sv = self@[i as int].snaps;
        let mut count: usize = 0;
        let mut first: usize = 0;
        let mut k: usize = 0;
        while k < snaps.len()
            invariant
                sv == snaps@.map_values(|s: Snapshot| s@),
                k <= snaps@.len(),
                count <= k,
                count == matching(sv.subrange(0, k as int), prefix@).len(),
                count > 0 ==> first < k && matching(sv.subrange(0, k as int), prefix@)[0] == sv[first as int],
            decreases snaps@.len() - k,
        {
            assert(sv.subrange(0, k + 1).drop_last() =~= sv.subrange(0, k as int));
            if starts_with(snaps[k].content_hash.as_slice(), prefix) {
                if count == 0 {
                    first = k;
                }
                count = count + 1;
            }
            k = k + 1;
        }
        assert(sv.subrange(0, k as int) =~= sv);
        if count == 0 {
            Err(SelectError::NotFound)
        } else if count > 1 {
            Err(SelectError::Ambiguous)
        } else {
            Ok(snaps[first].duplicate())
        }
    }
}

} // verus!
