//! The staleness cache and the dispatch step.

use wtfareu::state::{title, Action, WtfAreU, Message};
use wtfareu::window::WindowInfo;

fn win(title: &str, workspace: &str, app_class: &str) -> WindowInfo {
    WindowInfo {
        title: title.to_owned(),
        workspace: workspace.to_owned(),
        app_class: app_class.to_owned(),
    }
}

#[test]
fn first_refresh_queries() {
    let mut st = WtfAreU::new(0);
    let action = st.update(Message::Refresh, 0);
    assert!(matches!(action, Action::Query));
}

#[test]
fn refreshes_within_threshold_observe_the_same_snapshot() {
    let mut st = WtfAreU::new(0);
    assert!(matches!(st.update(Message::Refresh, 0), Action::Query));
    st.install_snapshot(vec![win("A", "1", "term")], 0);
    let before = st.current_windows().len();
    assert!(matches!(st.update(Message::Refresh, 50), Action::Idle));
    assert!(matches!(st.update(Message::Refresh, 100), Action::Idle));
    let after = st.current_windows();
    assert_eq!(after.len(), before);
    assert_eq!(after[0].title, "A");
}

#[test]
fn refresh_past_threshold_queries_again() {
    let mut st = WtfAreU::new(0);
    st.install_snapshot(vec![win("A", "1", "term")], 10);
    assert!(matches!(st.update(Message::Refresh, 111), Action::Query));
    st.install_snapshot(Vec::new(), 111);
    assert!(matches!(st.update(Message::Refresh, 211), Action::Idle));
    assert!(matches!(st.update(Message::Refresh, 212), Action::Query));
}

#[test]
fn click_switches_and_invalidates_the_cache() {
    let mut st = WtfAreU::new(0);
    st.install_snapshot(vec![win("A", "2", "term")], 0);
    let action = st.update(Message::WindowClicked("2".to_owned()), 1);
    match action {
        Action::SwitchWorkspace(ws) => assert_eq!(ws, "2"),
        _ => panic!("a click must ask for a workspace switch"),
    }
    // the cache is gone, so the very next refresh re-queries
    assert!(matches!(st.update(Message::Refresh, 2), Action::Query));
}

#[test]
fn install_replaces_the_window_list() {
    let mut st = WtfAreU::new(0);
    st.install_snapshot(vec![win("A", "1", "x"), win("B", "2", "y")], 5);
    assert_eq!(st.current_windows().len(), 2);
    st.install_snapshot(vec![win("C", "3", "z")], 200);
    let current = st.current_windows();
    assert_eq!(current.len(), 1);
    assert_eq!(current[0].title, "C");
}

#[test]
fn window_title_is_fixed() {
    assert_eq!(title(), "Where The Flip Are U");
}

#[test]
fn view_plan_renders_the_cached_snapshot() {
    let mut st = WtfAreU::new(0);
    st.install_snapshot(
        vec![win("B", "2", "browser"), win("A", "1", "term"), win("X", "lost", "misc")],
        0,
    );
    let plan = st.view_plan();
    assert_eq!(plan.len(), 2);
    assert_eq!(plan[0].heading, "Workspace #1");
    assert_eq!(plan[0].rows[0].label, "A (term)");
    assert_eq!(plan[1].heading, "Workspace #2");
    assert_eq!(plan[1].rows[0].label, "B (browser)");
}
