//! Decoding the control tool's client list.

use wtfareu::query::parse_client_list;

#[test]
fn complete_elements_decode_one_to_one() {
    let data = br#"[
        {"title":"A","workspace":{"name":"1"},"class":"term","pid":42},
        {"title":"B","workspace":{"name":"2"},"class":"browser","floating":false},
        {"title":"C","workspace":{"name":"1"},"class":"editor"}
    ]"#;
    let windows = parse_client_list(data);
    assert_eq!(windows.len(), 3);
    assert_eq!(windows[0].title, "A");
    assert_eq!(windows[0].workspace, "1");
    assert_eq!(windows[0].app_class, "term");
    assert_eq!(windows[1].title, "B");
    assert_eq!(windows[1].workspace, "2");
    assert_eq!(windows[1].app_class, "browser");
    assert_eq!(windows[2].title, "C");
}

#[test]
fn element_missing_title_is_skipped() {
    let data = br#"[
        {"workspace":{"name":"1"},"class":"term"},
        {"title":"B","workspace":{"name":"2"},"class":"browser"}
    ]"#;
    let windows = parse_client_list(data);
    assert_eq!(windows.len(), 1);
    assert_eq!(windows[0].title, "B");
}

#[test]
fn element_missing_workspace_name_is_skipped() {
    let data = br#"[
        {"title":"A","workspace":{},"class":"term"},
        {"title":"B","workspace":{"name":"2"},"class":"browser"},
        {"title":"C","workspace":"2","class":"editor"}
    ]"#;
    let windows = parse_client_list(data);
    assert_eq!(windows.len(), 1);
    assert_eq!(windows[0].title, "B");
}

#[test]
fn element_missing_class_is_skipped() {
    let data = br#"[
        {"title":"A","workspace":{"name":"1"},"class":"term"},
        {"title":"B","workspace":{"name":"2"}}
    ]"#;
    let windows = parse_client_list(data);
    assert_eq!(windows.len(), 1);
    assert_eq!(windows[0].title, "A");
}

#[test]
fn non_string_fields_are_skipped() {
    let data = br#"[
        {"title":7,"workspace":{"name":"1"},"class":"term"},
        {"title":"B","workspace":{"name":2},"class":"browser"},
        {"title":"C","workspace":{"name":"3"},"class":null}
    ]"#;
    let windows = parse_client_list(data);
    assert_eq!(windows.len(), 0);
}

#[test]
fn top_level_object_decodes_to_empty() {
    let windows = parse_client_list(br#"{"title":"A"}"#);
    assert_eq!(windows.len(), 0);
}

#[test]
fn malformed_json_decodes_to_empty() {
    let windows = parse_client_list(b"[{\"title\": ");
    assert_eq!(windows.len(), 0);
    let windows = parse_client_list(b"not json at all");
    assert_eq!(windows.len(), 0);
    let windows = parse_client_list(b"");
    assert_eq!(windows.len(), 0);
}

#[test]
fn empty_array_decodes_to_empty() {
    let windows = parse_client_list(b"[]");
    assert_eq!(windows.len(), 0);
}
