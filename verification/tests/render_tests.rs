//! The rendered view: numeric ordering, headings, row labels.

use wtfareu::grouping::group_windows;
use wtfareu::query::parse_client_list;
use wtfareu::render::{make_heading, make_label, render_plan};
use wtfareu::window::WindowInfo;

fn win(title: &str, workspace: &str, app_class: &str) -> WindowInfo {
    WindowInfo {
        title: title.to_owned(),
        workspace: workspace.to_owned(),
        app_class: app_class.to_owned(),
    }
}

#[test]
fn row_label_shows_title_and_class() {
    let w = win("Inbox", "1", "mail");
    assert_eq!(make_label(&w), "Inbox (mail)");
}

#[test]
fn heading_names_the_workspace() {
    assert_eq!(make_heading(&"3".to_owned()), "Workspace #3");
}

#[test]
fn sections_come_in_ascending_numeric_order() {
    let windows = vec![
        win("A", "10", "x"),
        win("B", "2", "y"),
        win("C", "1", "z"),
        win("D", "-1", "w"),
    ];
    let groups = group_windows(&windows);
    let plan = render_plan(&groups);
    let ids: Vec<i32> = plan.iter().map(|s| s.id).collect();
    assert_eq!(ids, [-1, 1, 2, 10]);
    assert_eq!(plan[0].heading, "Workspace #-1");
    assert_eq!(plan[1].heading, "Workspace #1");
    assert_eq!(plan[3].heading, "Workspace #10");
}

#[test]
fn non_numeric_workspaces_never_render() {
    let windows = vec![win("A", "special", "x"), win("B", "2", "y"), win("C", "01", "z")];
    let groups = group_windows(&windows);
    let plan = render_plan(&groups);
    assert_eq!(plan.len(), 1);
    assert_eq!(plan[0].id, 2);
    assert_eq!(plan[0].rows.len(), 1);
    assert_eq!(plan[0].rows[0].label, "B (y)");
}

#[test]
fn rows_carry_their_workspace_for_the_click() {
    let windows = vec![win("A", "4", "x"), win("B", "4", "y")];
    let groups = group_windows(&windows);
    let plan = render_plan(&groups);
    assert_eq!(plan.len(), 1);
    assert_eq!(plan[0].rows.len(), 2);
    assert_eq!(plan[0].rows[0].workspace, "4");
    assert_eq!(plan[0].rows[1].workspace, "4");
}

#[test]
fn two_record_snapshot_renders_two_ordered_sections() {
    let data = br#"[{"title":"A","workspace":{"name":"1"},"class":"term"}, {"title":"B","workspace":{"name":"2"},"class":"browser"}]"#;
    let windows = parse_client_list(data);
    assert_eq!(windows.len(), 2);
    let groups = group_windows(&windows);
    assert_eq!(groups.len(), 2);
    assert_eq!(groups[0].name, "1");
    assert_eq!(groups[0].windows[0].title, "A");
    assert_eq!(groups[0].windows[0].app_class, "term");
    assert_eq!(groups[1].name, "2");
    assert_eq!(groups[1].windows[0].title, "B");
    assert_eq!(groups[1].windows[0].app_class, "browser");
    let plan = render_plan(&groups);
    assert_eq!(plan.len(), 2);
    assert_eq!(plan[0].heading, "Workspace #1");
    assert_eq!(plan[0].rows[0].label, "A (term)");
    assert_eq!(plan[1].heading, "Workspace #2");
    assert_eq!(plan[1].rows[0].label, "B (browser)");
}
