use remnem::order::path_first;
use remnem::path::{relativize, DirPath};
use remnem::text::{decimal_text, same_text};

fn path(text: &str) -> DirPath {
    let anchor = if text.starts_with('/') { b"/".to_vec() } else { Vec::new() };
    let names = text.split('/').filter(|n| !n.is_empty()).map(|n| n.as_bytes().to_vec()).collect();
    DirPath { anchor, names }
}

#[test]
fn paths_are_shown_below_the_root() {
    let root = path("/home/you/repo");
    assert_eq!(relativize(&root, &path("/home/you/repo"), b'/'), ".");
    assert_eq!(relativize(&root, &path("/home/you/repo/node_modules"), b'/'), "node_modules");
    assert_eq!(
        relativize(&root, &path("/home/you/repo/apps/web/node_modules"), b'/'),
        "apps/web/node_modules"
    );
    assert_eq!(relativize(&root, &path("/home/you/repository/x"), b'/'), "/home/you/repository/x");
    assert_eq!(relativize(&root, &path("/home/you"), b'/'), "/home/you");
    assert_eq!(relativize(&root, &path("home/you/repo/x"), b'/'), "home/you/repo/x");
    assert_eq!(relativize(&root, &path("/home/you/repo/a/b"), b'\\'), "a\\b");
}

#[test]
fn names_need_not_be_text() {
    let root = path("/r");
    let odd = root.join(&vec![b'a', 0xff, b'b']);
    assert_eq!(relativize(&root, &odd, b'/'), "a\u{fffd}b");
    assert_eq!(odd.display(b'/'), "/r/a\u{fffd}b");
    let umlaut = root.join_text("ä");
    assert_eq!(relativize(&root, &umlaut, b'/'), "ä");
    assert_eq!(umlaut.names[1], "ä".as_bytes());
}

#[test]
fn paths_are_displayed_whole() {
    assert_eq!(path("/").display(b'/'), "/");
    assert_eq!(path("/a/b").display(b'/'), "/a/b");
    assert_eq!(path("a").display(b'/'), "a");
    assert_eq!(path("").display(b'/'), "");
}

#[test]
fn paths_lie_within_one_another() {
    assert!(path("/a/b").within(&path("/a")));
    assert!(path("/a").within(&path("/a")));
    assert!(!path("/a").within(&path("/a/b")));
    assert!(!path("/ab").within(&path("/a")));
    assert!(!path("a/b").within(&path("/a")));
    assert!(path("/a/b").same_as(&path("/a/b")));
    assert!(!path("/a/b").same_as(&path("/a/c")));
    assert!(!path("/a/b").same_as(&path("/a/b/c")));
    assert!(path("/a/b").clone().same_as(&path("/a/b")));
}

#[test]
fn paths_are_ordered_name_by_name() {
    // A slash counts less than any character of a name.
    assert!(path_first(&path("/r/a/b"), &path("/r/a-b")));
    assert!(!path_first(&path("/r/a-b"), &path("/r/a/b")));
    assert!(path_first(&path("/r/a"), &path("/r/a")));
    assert!(path_first(&path("/r/a"), &path("/r/a/b")));
    assert!(!path_first(&path("/r/a/b"), &path("/r/a")));
    assert!(path_first(&path("/r/B"), &path("/r/a")));
    assert!(path_first(&path("r"), &path("/r")));
}

#[test]
fn numbers_are_written_in_decimal() {
    assert_eq!(decimal_text(0), "0");
    assert_eq!(decimal_text(7), "7");
    assert_eq!(decimal_text(10), "10");
    assert_eq!(decimal_text(1947), "1947");
    assert_eq!(decimal_text(u64::MAX), "18446744073709551615");
}

#[test]
fn texts_are_compared() {
    assert!(same_text("", ""));
    assert!(same_text("näh", "näh"));
    assert!(!same_text("näh", "nah"));
    assert!(!same_text("a", "ab"));
}

#[test]
fn the_text_for_a_path_leads_back_to_it() {
    let root = path("/home/you/repo");
    for text in ["/home/you/repo", "/home/you/repo/a/b c/ü", "/elsewhere/x", "/home/you", "/"] {
        let given = std::path::Path::new(text);
        let shown = relativize(&root, &path(text), b'/');
        let joined = std::path::Path::new("/home/you/repo").join(shown);
        assert_eq!(joined.components().collect::<Vec<_>>(), given.components().collect::<Vec<_>>());
    }
}

#[test]
fn half_a_character_is_shown_as_one_replacement() {
    let root = DirPath { anchor: b"C:\\".to_vec(), names: vec![b"r".to_vec()] };
    let odd = root.join(&vec![b'a', 0xed, 0xa0, 0x80, b'b']);
    assert_eq!(odd.display(b'\\'), "C:\\r\\a\u{fffd}b");
    assert_eq!(relativize(&root, &odd, b'\\'), "a\u{fffd}b");
    let low = root.join(&vec![0xed, 0xbf, 0xbf]);
    assert_eq!(relativize(&root, &low, b'\\'), "\u{fffd}");
    // A whole character that begins with the same byte is left alone.
    assert_eq!(relativize(&root, &root.join_text("\u{d7ff}ü😀"), b'\\'), "\u{d7ff}ü😀");
    // Elsewhere each of the three bytes is replaced.
    let odd = path("/r").join(&vec![0xed, 0xa0, 0x80]);
    assert_eq!(odd.display(b'/'), "/r/\u{fffd}\u{fffd}\u{fffd}");
    assert_eq!(odd.display(b'/'), String::from_utf8_lossy(b"/r/\xed\xa0\x80"));
}
