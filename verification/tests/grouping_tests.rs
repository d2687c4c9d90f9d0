//! Partitioning windows into per-workspace buckets.

use wtfareu::grouping::group_windows;
use wtfareu::window::WindowInfo;

fn win(title: &str, workspace: &str, app_class: &str) -> WindowInfo {
    WindowInfo {
        title: title.to_owned(),
        workspace: workspace.to_owned(),
        app_class: app_class.to_owned(),
    }
}

#[test]
fn groups_keep_first_occurrence_order_and_bucket_order() {
    let windows = vec![
        win("A", "2", "term"),
        win("B", "1", "browser"),
        win("C", "2", "editor"),
        win("D", "1", "mail"),
        win("E", "3", "chat"),
    ];
    let groups = group_windows(&windows);
    assert_eq!(groups.len(), 3);
    assert_eq!(groups[0].name, "2");
    assert_eq!(groups[1].name, "1");
    assert_eq!(groups[2].name, "3");
    let titles0: Vec<&str> = groups[0].windows.iter().map(|w| w.title.as_str()).collect();
    assert_eq!(titles0, ["A", "C"]);
    let titles1: Vec<&str> = groups[1].windows.iter().map(|w| w.title.as_str()).collect();
    assert_eq!(titles1, ["B", "D"]);
    let titles2: Vec<&str> = groups[2].windows.iter().map(|w| w.title.as_str()).collect();
    assert_eq!(titles2, ["E"]);
}

#[test]
fn record_count_is_conserved() {
    let windows = vec![
        win("A", "1", "x"),
        win("B", "1", "x"),
        win("C", "1", "x"),
        win("D", "9", "x"),
    ];
    let groups = group_windows(&windows);
    let total: usize = groups.iter().map(|g| g.windows.len()).sum();
    assert_eq!(total, windows.len());
}

#[test]
fn empty_input_groups_to_nothing() {
    let groups = group_windows(&Vec::new());
    assert_eq!(groups.len(), 0);
}

#[test]
fn equal_keys_share_one_bucket() {
    let windows = vec![win("A", "7", "x"), win("B", "7", "y"), win("C", "7", "z")];
    let groups = group_windows(&windows);
    assert_eq!(groups.len(), 1);
    assert_eq!(groups[0].name, "7");
    assert_eq!(groups[0].windows.len(), 3);
}
