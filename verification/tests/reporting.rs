use remnem::disposal::DeleteResult;
use remnem::finder::FoundNodeModules;
use remnem::json::json_escape;
use remnem::path::DirPath;
use remnem::report::{count_failures, delete_json, scan_json, total_bytes};
use remnem::workspace::WorkspaceKind;

fn path(text: &str) -> DirPath {
    let names = text.split('/').filter(|n| !n.is_empty()).map(|n| n.as_bytes().to_vec()).collect();
    DirPath { anchor: b"/".to_vec(), names }
}

fn found(text: &str, bytes: u64) -> FoundNodeModules {
    FoundNodeModules { path: path(text), bytes }
}

fn result(text: &str, error: Option<&str>) -> DeleteResult {
    DeleteResult { path: path(text), error: error.map(|e| e.to_string()) }
}

#[test]
fn special_characters_are_escaped() {
    assert_eq!(json_escape(""), "");
    assert_eq!(json_escape("plain é — text"), "plain é — text");
    assert_eq!(json_escape("a\"b\\c"), "a\\\"b\\\\c");
    assert_eq!(json_escape("\n\r\t"), "\\n\\r\\t");
    assert_eq!(json_escape("\u{0}\u{1}\u{8}\u{b}\u{1f}"), "\\u0000\\u0001\\u0008\\u000b\\u001f");
    assert_eq!(json_escape(" \u{7f}/"), " \u{7f}/");
}

#[test]
fn escaped_texts_are_read_back() {
    let texts = ["", "a\"b", "\\n", "\n\\\"\t\r", "\u{0}\u{1f} é"];
    for text in texts {
        let literal = format!("\"{}\"", json_escape(text));
        assert_eq!(serde_json::from_str::<String>(&literal).unwrap(), text);
    }
    let mut escaped: Vec<String> = texts.iter().map(|t| json_escape(t)).collect();
    escaped.sort();
    escaped.dedup();
    assert_eq!(escaped.len(), texts.len());
}

#[test]
fn an_empty_scan_in_json() {
    assert_eq!(
        scan_json(&path("/r"), WorkspaceKind::NoWorkspace, &vec![], &vec![], b'/'),
        "{\n  \"root\": \"/r\",\n  \"workspaceKind\": \"none\",\n  \"workspacePackages\": [],\n  \
         \"count\": 0,\n  \"totalBytes\": 0,\n  \"cleaned\": []\n}\n"
    );
}

#[test]
fn a_scan_in_json() {
    let text = scan_json(
        &path("/r"),
        WorkspaceKind::Pnpm,
        &vec![path("/r/a"), path("/r/\"b\"")],
        &vec![found("/r/a/node_modules", 5), found("/r/node_modules", 37)],
        b'/',
    );
    assert_eq!(
        text,
        "{\n  \"root\": \"/r\",\n  \"workspaceKind\": \"pnpm\",\n  \"workspacePackages\": [\n    \
         \"/r/a\",\n    \"/r/\\\"b\\\"\"\n  ],\n  \"count\": 2,\n  \"totalBytes\": 42,\n  \
         \"cleaned\": [\n    { \"path\": \"/r/a/node_modules\", \"bytes\": 5, \"deleted\": false },\n    \
         { \"path\": \"/r/node_modules\", \"bytes\": 37, \"deleted\": false }\n  ]\n}\n"
    );
    let value: serde_json::Value = serde_json::from_str(&text).unwrap();
    assert_eq!(value["workspacePackages"][1], "/r/\"b\"");
    assert_eq!(value["cleaned"][0]["bytes"], 5);
}

#[test]
fn a_deletion_in_json() {
    assert_eq!(
        delete_json(&vec![], b'/'),
        "{\n  \"count\": 0,\n  \"failed\": 0,\n  \"cleaned\": []\n}\n"
    );
    let text = delete_json(
        &vec![result("/a", None), result("/b", Some("\"busy\"\n")), result("/c", None)],
        b'/',
    );
    assert_eq!(
        text,
        "{\n  \"count\": 3,\n  \"failed\": 1,\n  \"cleaned\": [\n    \
         { \"path\": \"/a\", \"deleted\": true, \"error\": null },\n    \
         { \"path\": \"/b\", \"deleted\": false, \"error\": \"\\\"busy\\\"\\n\" },\n    \
         { \"path\": \"/c\", \"deleted\": true, \"error\": null }\n  ]\n}\n"
    );
    let value: serde_json::Value = serde_json::from_str(&text).unwrap();
    assert_eq!(value["cleaned"][1]["error"], "\"busy\"\n");
}

#[test]
fn bytes_are_added_up_where_they_fit() {
    assert_eq!(total_bytes(&vec![]), Some(0));
    assert_eq!(total_bytes(&vec![found("/a", 1), found("/b", u64::MAX - 1)]), Some(u64::MAX));
    assert_eq!(total_bytes(&vec![found("/a", 2), found("/b", u64::MAX - 1)]), None);
    assert_eq!(total_bytes(&vec![found("/a", u64::MAX), found("/b", u64::MAX)]), None);
}

#[test]
fn failures_are_counted() {
    assert_eq!(count_failures(&vec![]), 0);
    assert_eq!(
        count_failures(&vec![result("/a", Some("x")), result("/b", None), result("/c", Some(""))]),
        2
    );
}
