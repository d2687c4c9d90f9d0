//! Grouping: partitioning the window list into per-workspace buckets.
//!
//! One pass over the input; each record is appended to the bucket of its
//! workspace, and a bucket is created on the first record that mentions
//! its workspace.  Buckets stand in order of first occurrence, and the
//! records inside a bucket keep their input order.

use vstd::prelude::*;

use crate::window::{WindowInfo, WindowView};

verus! {

/// One bucket: a workspace and the windows on it, in input order.
pub struct Workspace {
    pub name: String,
    pub windows: Vec<WindowInfo>,
}

/// The mathematical value of a [`Workspace`].
#[verifier::ext_equal]
pub struct WorkspaceView {
    pub name: Seq<char>,
    pub windows: Seq<WindowView>,
}

impl View for Workspace {
    type V = WorkspaceView;

    open spec fn view(&self) -> WorkspaceView {
        WorkspaceView { name: self.name@, windows: self.windows.deep_view() }
    }
}

impl DeepView for Workspace {
    type V = WorkspaceView;

    open spec fn deep_view(&self) -> WorkspaceView {
        self.view()
    }
}

/// Index of the first bucket called `name`, or `-1` when there is none.
pub open spec fn find_group(gs: Seq<WorkspaceView>, name: Seq<char>) -> int
    decreases gs.len(),
{
    if gs.len() == 0 {
        -1
    } else if gs[0].name == name {
        0
    } else {
        let r = find_group(gs.drop_first(), name);
        if r == -1 {
            -1
        } else {
            r + 1
        }
    }
}

/// One grouping step: append `w` to the bucket of its workspace,
/// creating the bucket when it is the first record for that workspace.
pub open spec fn group_step(gs: Seq<WorkspaceView>, w: WindowView) -> Seq<WorkspaceView> {
    let i = find_group(gs, w.workspace);
    if i == -1 {
        gs.push(WorkspaceView { name: w.workspace, windows: seq![w] })
    } else {
        gs.update(i, WorkspaceView { name: gs[i].name, windows: gs[i].windows.push(w) })
    }
}

/// The buckets that a window sequence groups into.
pub open spec fn spec_group(ws: Seq<WindowView>) -> Seq<WorkspaceView>
    decreases ws.len(),
{
    if ws.len() == 0 {
        Seq::empty()
    } else {
        group_step(spec_group(ws.drop_last()), ws.last())
    }
}

/// The records of `ws` whose workspace is `name`, in input order.
pub open spec fn bucket_of(ws: Seq<WindowView>, name: Seq<char>) -> Seq<WindowView>
    decreases ws.len(),
{
    if ws.len() == 0 {
        Seq::empty()
    } else {
        let rest = bucket_of(ws.drop_last(), name);
        if ws.last().workspace == name {
            rest.push(ws.last())
        } else {
            rest
        }
    }
}

/// Total record count over all buckets.
pub open spec fn total_windows(gs: Seq<WorkspaceView>) -> nat
    decreases gs.len(),
{
    if gs.len() == 0 {
        0
    } else {
        total_windows(gs.drop_last()) + gs.last().windows.len()
    }
}

proof fn lemma_find_group_hit(gs: Seq<WorkspaceView>, name: Seq<char>, i: int)
    requires
        0 <= i < gs.len(),
        forall|k: int| 0 <= k < i ==> gs[k].name != name,
        gs[i].name == name,
    ensures
        find_group(gs, name) == i,
    decreases i,
{
    if i > 0 {
        lemma_find_group_hit(gs.drop_first(), name, i - 1);
    }
}

proof fn lemma_find_group_miss(gs: Seq<WorkspaceView>, name: Seq<char>)
    requires
        forall|k: int| 0 <= k < gs.len() ==> gs[k].name != name,
    ensures
        find_group(gs, name) == -1,
    decreases gs.len(),
{
    if gs.len() > 0 {
        lemma_find_group_miss(gs.drop_first(), name);
    }
}

proof fn lemma_find_group_range(gs: Seq<WorkspaceView>, name: Seq<char>)
    ensures
        find_group(gs, name) == -1 || (0 <= find_group(gs, name) < gs.len() && gs[find_group(
            gs,
            name,
        )].name == name),
        find_group(gs, name) == -1 ==> forall|k: int| 0 <= k < gs.len() ==> gs[k].name != name,
    decreases gs.len(),
{
    if gs.len() > 0 {
        lemma_find_group_range(gs.drop_first(), name);
        assert(forall|k: int| 1 <= k < gs.len() ==> gs[k] == gs.drop_first()[k - 1]);
    }
}

proof fn lemma_bucket_empty(ws: Seq<WindowView>, name: Seq<char>)
    requires
        forall|k: int| 0 <= k < ws.len() ==> #[trigger] ws[k].workspace != name,
    ensures
        bucket_of(ws, name) == Seq::<WindowView>::empty(),
    decreases ws.len(),
{
    if ws.len() > 0 {
        assert(forall|k: int| 0 <= k < ws.len() - 1 ==> ws.drop_last()[k] == ws[k]);
        lemma_bucket_empty(ws.drop_last(), name);
    }
}

proof fn lemma_total_update(gs: Seq<WorkspaceView>, i: int, g: WorkspaceView)
    requires
        0 <= i < gs.len(),
    ensures
        total_windows(gs.update(i, g)) == total_windows(gs) - gs[i].windows.len()
            + g.windows.len(),
    decreases gs.len(),
{
    let gs2 = gs.update(i, g);
    if i == gs.len() - 1 {
        assert(gs2.drop_last() =~= gs.drop_last());
    } else {
        assert(gs2.drop_last() =~= gs.drop_last().update(i, g));
        lemma_total_update(gs.drop_last(), i, g);
        assert(gs2.last() == gs.last());
    }
}

proof fn lemma_find_group_push(gs: Seq<WorkspaceView>, b: WorkspaceView, name: Seq<char>)
    ensures
        find_group(gs, name) != -1 ==> find_group(gs.push(b), name) == find_group(gs, name),
    decreases gs.len(),
{
    if gs.len() > 0 {
        assert(gs.push(b).drop_first() =~= gs.drop_first().push(b));
        lemma_find_group_push(gs.drop_first(), b, name);
    }
}

proof fn lemma_find_group_same_names(gs1: Seq<WorkspaceView>, gs2: Seq<WorkspaceView>, name: Seq<char>)
    requires
        gs1.len() == gs2.len(),
        forall|j: int| 0 <= j < gs1.len() ==> #[trigger] gs1[j].name == gs2[j].name,
    ensures
        find_group(gs1, name) == find_group(gs2, name),
    decreases gs1.len(),
{
    if gs1.len() > 0 {
        assert(forall|j: int| 0 <= j < gs1.len() - 1 ==> gs1.drop_first()[j] == gs1[j + 1]);
        lemma_find_group_same_names(gs1.drop_first(), gs2.drop_first(), name);
    }
}

/// The grouping is a partition of its input that keeps order inside
/// every bucket: bucket names are distinct, every bucket holds exactly
/// the input records of its workspace in input order, no bucket is
/// empty, every record's workspace has a bucket, and the record count
/// over all buckets equals the input length.
pub proof fn lemma_group_partition(ws: Seq<WindowView>)
    ensures
        forall|i: int, j: int|
            0 <= i < j < spec_group(ws).len() ==> spec_group(ws)[i].name != spec_group(
                ws,
            )[j].name,
        forall|i: int|
            0 <= i < spec_group(ws).len() ==> #[trigger] spec_group(ws)[i].windows == bucket_of(
                ws,
                spec_group(ws)[i].name,
            ),
        forall|i: int|
            0 <= i < spec_group(ws).len() ==> #[trigger] spec_group(ws)[i].windows.len() > 0,
        forall|k: int|
            0 <= k < ws.len() ==> find_group(spec_group(ws), #[trigger] ws[k].workspace) != -1,
        total_windows(spec_group(ws)) == ws.len(),
    decreases ws.len(),
{
    if ws.len() > 0 {
        let ws0 = ws.drop_last();
        let w = ws.last();
        let gs0 = spec_group(ws0);
        let gs = spec_group(ws);
        lemma_group_partition(ws0);
        lemma_find_group_range(gs0, w.workspace);
        let fg = find_group(gs0, w.workspace);
        assert(forall|k: int| 0 <= k < ws0.len() ==> ws0[k] == ws[k]);
        if fg == -1 {
            let b = WorkspaceView { name: w.workspace, windows: seq![w] };
            assert(gs == gs0.push(b));
            assert(forall|k: int| 0 <= k < ws0.len() ==> #[trigger] ws0[k].workspace
                != w.workspace);
            lemma_bucket_empty(ws0, w.workspace);
            assert(bucket_of(ws, w.workspace) =~= seq![w]);
            assert(forall|i: int|
                0 <= i < gs0.len() ==> bucket_of(ws, #[trigger] gs0[i].name) == bucket_of(
                    ws0,
                    gs0[i].name,
                ));
            assert(forall|k: int|
                0 <= k < ws.len() ==> find_group(gs, #[trigger] ws[k].workspace) != -1) by {
                assert(forall|k: int|
                    0 <= k < ws0.len() ==> find_group(gs0, #[trigger] ws[k].workspace) != -1);
                assert forall|k: int| 0 <= k < ws.len() implies find_group(
                    gs,
                    #[trigger] ws[k].workspace,
                ) != -1 by {
                    if k < ws0.len() {
                        assert(ws0[k] == ws[k]);
                        assert(find_group(gs0, ws0[k].workspace) != -1);
                        lemma_find_group_push(gs0, b, ws[k].workspace);
                    } else {
                        assert(gs[gs0.len() as int].name == w.workspace);
                        lemma_find_group_range(gs, w.workspace);
                    }
                }
            }
            assert(gs.drop_last() =~= gs0);
            assert(total_windows(gs) == ws.len());
        } else {
            let b = WorkspaceView {
                name: gs0[fg].name,
                windows: gs0[fg].windows.push(w),
            };
            assert(gs == gs0.update(fg, b));
            assert(forall|j: int| 0 <= j < gs.len() ==> #[trigger] gs[j].name == gs0[j].name);
            assert(forall|i: int|
                0 <= i < gs.len() && i != fg ==> bucket_of(ws, #[trigger] gs[i].name)
                    == bucket_of(ws0, gs0[i].name));
            assert(bucket_of(ws, gs[fg].name) == bucket_of(ws0, gs0[fg].name).push(w));
            assert(forall|k: int|
                0 <= k < ws.len() ==> find_group(gs, #[trigger] ws[k].workspace) != -1) by {
                assert forall|k: int| 0 <= k < ws.len() implies find_group(
                    gs,
                    #[trigger] ws[k].workspace,
                ) != -1 by {
                    lemma_find_group_same_names(gs0, gs, ws[k].workspace);
                    if k < ws0.len() {
                        assert(ws0[k] == ws[k]);
                        assert(find_group(gs0, ws0[k].workspace) != -1);
                    } else {
                        assert(gs[fg].name == w.workspace);
                        lemma_find_group_range(gs, w.workspace);
                    }
                }
            }
            lemma_total_update(gs0, fg, b);
        }
    }
}

/// Finds the bucket a record belongs to: the index of the bucket called
/// `name`, or the number of buckets when none is.
fn find_bucket(groups: &Vec<Workspace>, name: &String) -> (r: usize)
    ensures
        ({
            let fg = find_group(groups.deep_view(), name@);
            if fg == -1 {
                r == groups@.len()
            } else {
                r == fg
            }
        }),
{
    let n = groups.len();
    let mut j: usize = 0;
    while j < n
        invariant
            n == groups@.len(),
            0 <= j <= n,
            forall|k: int| 0 <= k < j ==> #[trigger] groups.deep_view()[k].name != name@,
        decreases n - j,
    {
        if groups[j].name == *name {
            proof {
                lemma_find_group_hit(groups.deep_view(), name@, j as int);
            }
            return j;
        }
        j = j + 1;
    }
    proof {
        lemma_find_group_miss(groups.deep_view(), name@);
    }
    n
}

/// Partitions `windows` into per-workspace buckets, in order of first
/// occurrence, keeping input order inside every bucket.
pub fn group_windows(windows: &Vec<WindowInfo>) -> (r: Vec<Workspace>)
    ensures
        r.deep_view() == spec_group(windows.deep_view()),
{
    let n = windows.len();
    let mut groups: Vec<Workspace> = Vec::new();
    let mut i: usize = 0;
    while i < n
        invariant
            n == windows@.len(),
            0 <= i <= n,
            groups.deep_view() == spec_group(windows.deep_view().take(i as int)),
        decreases n - i,
    {
        proof {
            assert(windows.deep_view().take(i + 1).drop_last() =~= windows.deep_view().take(
                i as int,
            ));
            assert(windows.deep_view().take(i + 1).last() == windows.deep_view()[i as int]);
        }
        let w = &windows[i];
        let ghost gs0 = groups.deep_view();
        let ghost wv = windows.deep_view()[i as int];
        let j = find_bucket(&groups, &w.workspace);
        if j < groups.len() {
            groups[j].windows.push(w.clone());
            proof {
                assert(groups.deep_view() =~~= group_step(gs0, wv));
            }
        } else {
            groups.push(Workspace { name: w.workspace.clone(), windows: vec![w.clone()] });
            proof {
                lemma_find_group_range(gs0, wv.workspace);
                assert(groups.deep_view() =~~= group_step(gs0, wv));
            }
        }
        i = i + 1;
    }
    proof {
        assert(windows.deep_view().take(n as int) =~= windows.deep_view());
    }
    groups
}

} // verus!
