//! Application state: the window list, the staleness cache, and the
//! dispatch step of the event loop.
//!
//! All mutation happens in [`WtfAreU::update`], on one of two events: a
//! click on a row (switch to that workspace, and drop the cache, since
//! the window set has presumably changed) or a refresh trigger (re-query
//! only when no snapshot is cached or the cached one has aged past the
//! threshold).  The shell around the library performs the returned
//! [`Action`] — running the control tool is its business, not the
//! library's — and hands a fresh snapshot back through
//! [`WtfAreU::install_snapshot`].

use vstd::prelude::*;

use crate::grouping::{group_windows, lemma_group_partition, spec_group, Workspace};
use crate::render::{render_plan, sections_cover, sections_match, sections_sorted, Section};
use crate::window::{WindowInfo, WindowView};

verus! {

/// How long a cached snapshot stays fresh, in milliseconds.
pub const CACHE_DURATION_MILLIS: u64 = 100;

/// An event the interface delivers.
#[derive(Debug, Clone)]
pub enum Message {
    /// A row was clicked: switch to the named workspace.
    WindowClicked(String),
    /// Something happened that may have changed the window set.
    Refresh,
}

/// What the shell must do after a dispatch step.
pub enum Action {
    /// Ask the control tool to switch to the named workspace.
    SwitchWorkspace(String),
    /// Query the control tool for a fresh client list.
    Query,
    /// Nothing: the cached snapshot is still fresh.
    Idle,
}

/// The whole mutable state of the utility: the original owner of every
/// dispatch step.
pub struct WtfAreU {
    /// The window list of the most recent query.
    pub windows: Vec<WindowInfo>,
    /// When the most recent query completed, in milliseconds.
    pub last_update: u64,
    /// The memoized snapshot, dropped on a workspace switch.
    pub cached_windows: Option<Vec<WindowInfo>>,
}

/// A refresh must re-query: no snapshot is cached, or the cached one is
/// older than the threshold.
pub open spec fn spec_needs_query(st: WtfAreU, now: u64) -> bool {
    st.cached_windows is None || now - st.last_update > CACHE_DURATION_MILLIS
}

/// What a refresh at time `now` does: query, or sit on the cache.
pub open spec fn spec_refresh_action(st: WtfAreU, now: u64) -> Action {
    if spec_needs_query(st, now) {
        Action::Query
    } else {
        Action::Idle
    }
}

/// The windows a render works from: the cached snapshot when one is
/// held, the last query's list otherwise.
pub open spec fn spec_current(st: WtfAreU) -> Seq<WindowView> {
    match st.cached_windows {
        Some(c) => c.deep_view(),
        None => st.windows.deep_view(),
    }
}

impl WtfAreU {
    /// The state at startup: no windows, nothing cached.
    pub fn new(now: u64) -> (st: WtfAreU)
        ensures
            st.windows.deep_view() == Seq::<WindowView>::empty(),
            st.last_update == now,
            st.cached_windows is None,
    {
        WtfAreU { windows: Vec::new(), last_update: now, cached_windows: None }
    }

    /// One dispatch step.  A click drops the cache and asks for the
    /// switch; a refresh asks for a query exactly when the cache is
    /// absent or stale, and otherwise changes nothing.
    pub fn update(&mut self, message: Message, now: u64) -> (action: Action)
        ensures
            match message {
                Message::WindowClicked(ws) => {
                    &&& final(self).windows == old(self).windows
                    &&& final(self).last_update == old(self).last_update
                    &&& final(self).cached_windows is None
                    &&& action == Action::SwitchWorkspace(ws)
                },
                Message::Refresh => {
                    &&& *final(self) == *old(self)
                    &&& action == spec_refresh_action(*old(self), now)
                },
            },
    {
        match message {
            Message::WindowClicked(workspace) => {
                self.cached_windows = None;
                Action::SwitchWorkspace(workspace)
            },
            Message::Refresh => {
                if self.cached_windows.is_none() || (now > self.last_update && now
                    - self.last_update > CACHE_DURATION_MILLIS) {
                    Action::Query
                } else {
                    Action::Idle
                }
            },
        }
    }

    /// Takes the result of a completed query: it becomes the window
    /// list, and a copy of it the cached snapshot, stamped `now`.
    pub fn install_snapshot(&mut self, windows: Vec<WindowInfo>, now: u64)
        ensures
            final(self).windows == windows,
            final(self).last_update == now,
            final(self).cached_windows matches Some(c) && c.deep_view() == windows.deep_view(),
    {
        self.windows = windows;
        self.last_update = now;
        let cache = clone_windows(&self.windows);
        self.cached_windows = Some(cache);
    }

    /// Buckets a window list by workspace: the dispatch owner's view
    /// of [`group_windows`].
    pub fn group_windows(&self, windows: &Vec<WindowInfo>) -> (r: Vec<Workspace>)
        ensures
            r.deep_view() == spec_group(windows.deep_view()),
    {
        group_windows(windows)
    }

    /// The windows a render works from.
    pub fn current_windows(&self) -> (r: &Vec<WindowInfo>)
        ensures
            r.deep_view() == spec_current(*self),
    {
        match &self.cached_windows {
            Some(cached) => cached,
            None => &self.windows,
        }
    }

    /// The whole of a render, minus the widgets: the current windows,
    /// bucketed by workspace, as sections in strictly ascending numeric
    /// order.
    pub fn view_plan(&self) -> (r: Vec<Section>)
        ensures
            sections_sorted(r.deep_view()),
            exists|owner: Seq<int>|
                sections_match(spec_group(spec_current(*self)), r.deep_view(), owner),
            exists|place: Seq<int>|
                sections_cover(spec_group(spec_current(*self)), r.deep_view(), place),
    {
        let windows = self.current_windows();
        let groups = group_windows(windows);
        proof {
            lemma_group_partition(windows.deep_view());
        }
        render_plan(&groups)
    }
}

/// Copies a window list, record for record.
fn clone_windows(windows: &Vec<WindowInfo>) -> (r: Vec<WindowInfo>)
    ensures
        r.deep_view() == windows.deep_view(),
{
    let n = windows.len();
    let mut out: Vec<WindowInfo> = Vec::new();
    let mut i: usize = 0;
    while i < n
        invariant
            n == windows@.len(),
            0 <= i <= n,
            out.deep_view().len() == i,
            forall|k: int| 0 <= k < i ==> out.deep_view()[k] == #[trigger] windows.deep_view()[k],
        decreases n - i,
    {
        out.push(windows[i].clone());
        i = i + 1;
    }
    proof {
        assert(out.deep_view() =~= windows.deep_view());
    }
    out
}

/// The window's title bar text.
pub fn title() -> (r: String)
    ensures
        r@ == "Where The Flip Are U"@,
{
    "Where The Flip Are U".to_owned()
}

/// A snapshot installed at `t1` is still fresh at any `t2` within the
/// threshold: a refresh then queries nothing, so two refreshes that
/// close together observe the identical snapshot.
pub proof fn lemma_fresh_cache_no_requery(st: WtfAreU, t1: u64, t2: u64)
    requires
        st.cached_windows is Some,
        st.last_update == t1,
        t1 <= t2 <= t1 + CACHE_DURATION_MILLIS,
    ensures
        spec_refresh_action(st, t2) == Action::Idle,
{
}

/// A refresh more than the threshold after the last completed query
/// re-queries.
pub proof fn lemma_stale_cache_requery(st: WtfAreU, t1: u64, t2: u64)
    requires
        st.last_update == t1,
        t2 > t1 + CACHE_DURATION_MILLIS,
    ensures
        spec_refresh_action(st, t2) == Action::Query,
{
}

} // verus!
