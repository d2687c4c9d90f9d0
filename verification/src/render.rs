//! Presentation plan: what the widget layer draws, minus the widgets.
//!
//! The grouped windows become sections, one per workspace whose name is
//! numeric, in strictly ascending numeric order.  Each section carries a
//! heading and one row per window; a row's label reads
//! `"{title} ({application_class})"` and its click target is the
//! window's workspace name.  Workspaces with non-numeric names do not
//! appear at all.

use vstd::prelude::*;
use vstd::seq_lib::*;
use vstd::string::StringExecFns;

use crate::grouping::{Workspace, WorkspaceView};
use crate::window::{WindowInfo, WindowView};
use crate::workspace_id::{parse_workspace_id, ws_id_of, lemma_ws_id_injective};

verus! {

/// One clickable row: its label, and the workspace a click switches to.
pub struct Row {
    pub label: String,
    pub workspace: String,
}

/// The mathematical value of a [`Row`].
#[verifier::ext_equal]
pub struct RowView {
    pub label: Seq<char>,
    pub workspace: Seq<char>,
}

impl View for Row {
    type V = RowView;

    open spec fn view(&self) -> RowView {
        RowView { label: self.label@, workspace: self.workspace@ }
    }
}

impl DeepView for Row {
    type V = RowView;

    open spec fn deep_view(&self) -> RowView {
        self.view()
    }
}

/// One rendered workspace: its numeric identifier, its heading, and its
/// rows in bucket order.
pub struct Section {
    pub id: i32,
    pub heading: String,
    pub rows: Vec<Row>,
}

/// The mathematical value of a [`Section`].
#[verifier::ext_equal]
pub struct SectionView {
    pub id: int,
    pub heading: Seq<char>,
    pub rows: Seq<RowView>,
}

impl View for Section {
    type V = SectionView;

    open spec fn view(&self) -> SectionView {
        SectionView { id: self.id as int, heading: self.heading@, rows: self.rows.deep_view() }
    }
}

impl DeepView for Section {
    type V = SectionView;

    open spec fn deep_view(&self) -> SectionView {
        self.view()
    }
}

/// What a window's row reads: `"{title} ({application_class})"`.
pub open spec fn row_label(w: WindowView) -> Seq<char> {
    w.title + " ("@ + w.app_class + ")"@
}

/// The row a window renders to.
pub open spec fn row_of(w: WindowView) -> RowView {
    RowView { label: row_label(w), workspace: w.workspace }
}

/// The rows of a bucket, in bucket order.
pub open spec fn rows_of(ws: Seq<WindowView>) -> Seq<RowView> {
    Seq::new(ws.len(), |i: int| row_of(ws[i]))
}

/// What a workspace's heading reads: `"Workspace #{name}"`.
pub open spec fn heading_of(name: Seq<char>) -> Seq<char> {
    "Workspace #"@ + name
}

/// The section a numeric workspace renders to.
pub open spec fn section_of(g: WorkspaceView) -> SectionView {
    SectionView { id: ws_id_of(g.name)->0, heading: heading_of(g.name), rows: rows_of(g.windows) }
}

/// Builds the label of one row.
pub fn make_label(w: &WindowInfo) -> (r: String)
    ensures
        r@ == row_label(w@),
{
    let mut label = w.title.clone();
    label.append(" (");
    label.append(w.app_class.as_str());
    label.append(")");
    label
}

/// Builds the heading of one section.
pub fn make_heading(name: &String) -> (r: String)
    ensures
        r@ == heading_of(name@),
{
    let mut heading = "Workspace #".to_owned();
    heading.append(name.as_str());
    heading
}

/// Builds the rows of one bucket, in bucket order.
pub fn make_rows(g: &Workspace) -> (r: Vec<Row>)
    ensures
        r.deep_view() == rows_of(g@.windows),
{
    let n = g.windows.len();
    let mut rows: Vec<Row> = Vec::new();
    let mut i: usize = 0;
    while i < n
        invariant
            n == g.windows@.len(),
            0 <= i <= n,
            rows.deep_view().len() == i,
            forall|k: int| 0 <= k < i ==> rows.deep_view()[k] == row_of(
                #[trigger] g.windows.deep_view()[k],
            ),
        decreases n - i,
    {
        let w = &g.windows[i];
        let label = make_label(w);
        rows.push(Row { label, workspace: w.workspace.clone() });
        i = i + 1;
    }
    proof {
        assert(rows.deep_view() =~~= rows_of(g@.windows));
    }
    rows
}

/// The section ids are strictly ascending.
pub open spec fn sections_sorted(secs: Seq<SectionView>) -> bool {
    forall|k1: int, k2: int| 0 <= k1 < k2 < secs.len() ==> secs[k1].id < secs[k2].id
}

/// `owner` certifies that every section is the rendering of a bucket
/// with a numeric name: nothing else, in particular no bucket with a
/// non-numeric name, appears in the output.
pub open spec fn sections_match(
    gs: Seq<WorkspaceView>,
    secs: Seq<SectionView>,
    owner: Seq<int>,
) -> bool {
    &&& owner.len() == secs.len()
    &&& forall|k: int|
        #![trigger owner[k]]
        0 <= k < secs.len() ==> 0 <= owner[k] < gs.len() && ws_id_of(gs[owner[k]].name) is Some
            && secs[k] == section_of(gs[owner[k]])
}

/// `place` certifies that every bucket with a numeric name is rendered
/// as a section.
pub open spec fn sections_cover(
    gs: Seq<WorkspaceView>,
    secs: Seq<SectionView>,
    place: Seq<int>,
) -> bool {
    &&& place.len() == gs.len()
    &&& forall|i: int|
        #![trigger place[i]]
        0 <= i < gs.len() && ws_id_of(gs[i].name) is Some ==> 0 <= place[i] < secs.len()
            && secs[place[i]] == section_of(gs[i])
}

/// Renders grouped windows as sections in strictly ascending numeric
/// order.  Exactly the buckets with a numeric name appear, each as the
/// section it renders to; buckets with non-numeric names are absent.
#[verifier::rlimit(40)]
pub fn render_plan(groups: &Vec<Workspace>) -> (r: Vec<Section>)
    requires
        forall|i: int, j: int|
            0 <= i < j < groups.deep_view().len() ==> groups.deep_view()[i].name
                != groups.deep_view()[j].name,
    ensures
        sections_sorted(r.deep_view()),
        exists|owner: Seq<int>| sections_match(groups.deep_view(), r.deep_view(), owner),
        exists|place: Seq<int>| sections_cover(groups.deep_view(), r.deep_view(), place),
{
    let ghost gs = groups.deep_view();
    let n = groups.len();
    let mut sections: Vec<Section> = Vec::new();
    // Ghost bookkeeping: which bucket each section came from, and where
    // each already handled bucket went (-1: not rendered).
    let ghost mut owners: Seq<int> = Seq::empty();
    let ghost mut placed: Seq<int> = Seq::empty();
    let mut gi: usize = 0;
    while gi < n
        invariant
            n == groups@.len(),
            gs == groups.deep_view(),
            0 <= gi <= n,
            forall|i: int, j: int| 0 <= i < j < gs.len() ==> gs[i].name != gs[j].name,
            owners.len() == sections.deep_view().len(),
            placed.len() == gi,
            forall|k1: int, k2: int|
                0 <= k1 < k2 < sections.deep_view().len() ==> sections.deep_view()[k1].id
                    < sections.deep_view()[k2].id,
            forall|k: int|
                #![trigger owners[k]]
                0 <= k < owners.len() ==> 0 <= owners[k] < gi && ws_id_of(
                    gs[owners[k]].name,
                ) is Some && sections.deep_view()[k] == section_of(gs[owners[k]]),
            forall|i: int|
                #![trigger placed[i]]
                0 <= i < gi && ws_id_of(gs[i].name) is Some ==> 0 <= placed[i] < owners.len()
                    && owners[placed[i]] == i,
        decreases n - gi,
    {
        let g = &groups[gi];
        match parse_workspace_id(g.name.as_str()) {
            None => {
                proof {
                    placed = placed.push(-1);
                }
            },
            Some(v) => {
                let ghost old_secs = sections.deep_view();
                let m = sections.len();
                let mut pos: usize = 0;
                while pos < m && sections[pos].id < v
                    invariant
                        m == sections@.len(),
                        old_secs == sections.deep_view(),
                        0 <= pos <= m,
                        forall|q: int| 0 <= q < pos ==> #[trigger] sections.deep_view()[q].id
                            < v as int,
                        forall|k1: int, k2: int|
                            0 <= k1 < k2 < sections.deep_view().len() ==> sections.deep_view()[
                                k1
                            ].id < sections.deep_view()[k2].id,
                    decreases m - pos,
                {
                    pos = pos + 1;
                }
                proof {
                    if pos < old_secs.len() && old_secs[pos as int].id == v as int {
                        let i0 = owners[pos as int];
                        assert(old_secs[pos as int] == section_of(gs[i0]));
                        assert(ws_id_of(gs[i0].name) == Some(v as int));
                        lemma_ws_id_injective(gs[i0].name, gs[gi as int].name);
                        assert(false);
                    }
                    assert forall|q: int| pos <= q < old_secs.len() implies #[trigger] old_secs[
                        q
                    ].id > v as int by {
                        if q > pos {
                            assert(old_secs[pos as int].id < old_secs[q].id);
                        }
                    }
                }
                let heading = make_heading(&g.name);
                let rows = make_rows(g);
                let sec = Section { id: v, heading, rows };
                let ghost sece = sec;
                let ghost oldv = sections@;
                sections.insert(pos, sec);
                proof {
                    oldv.insert_ensures(pos as int, sece);
                    let ghost owners0 = owners;
                    let ghost placed0 = placed;
                    owners = owners.insert(pos as int, gi as int);
                    owners0.insert_ensures(pos as int, gi as int);
                    placed = Seq::new((gi + 1) as nat, |i: int|
                        if i == gi {
                            pos as int
                        } else if placed0[i] >= pos {
                            placed0[i] + 1
                        } else {
                            placed0[i]
                        });
                    let new_secs = sections.deep_view();
                    assert(sece.deep_view() == section_of(gs[gi as int]));
                    assert(new_secs.len() == old_secs.len() + 1);
                    assert(forall|k: int| 0 <= k < pos ==> #[trigger] new_secs[k] == old_secs[k]);
                    assert(forall|k: int|
                        pos < k < new_secs.len() ==> #[trigger] new_secs[k] == old_secs[k - 1]);
                    assert(new_secs[pos as int] == section_of(gs[gi as int]));
                    assert forall|k1: int, k2: int|
                        0 <= k1 < k2 < new_secs.len() implies new_secs[k1].id
                        < new_secs[k2].id by {
                        if k1 < pos && k2 > pos {
                            assert(old_secs[k2 - 1].id > v as int);
                            assert(old_secs[k1].id < v as int);
                        }
                    }
                }
            },
        }
        gi = gi + 1;
    }
    proof {
        let secs = sections.deep_view();
        let gsv = groups.deep_view();
        assert(sections_match(gsv, secs, owners));
        assert forall|i: int|
            #![trigger placed[i]]
            0 <= i < gsv.len() && ws_id_of(gsv[i].name) is Some implies 0 <= placed[i]
            < secs.len() && secs[placed[i]] == section_of(gsv[i]) by {
            let k0 = placed[i];
            assert(secs[k0] == section_of(gsv[owners[k0]]));
            assert(owners[k0] == i);
        }
        assert(sections_cover(gsv, secs, placed));
    }
    sections
}

} // verus!
