use remnem::finder::find;
use remnem::path::DirPath;
use remnem::walk::{size_dir, walk_dir, Entry, EntryKind, Fan};

fn path(text: &str) -> DirPath {
    let names = text.split('/').filter(|n| !n.is_empty()).map(|n| n.as_bytes().to_vec()).collect();
    DirPath { anchor: b"/".to_vec(), names }
}

fn show(paths: &[DirPath]) -> Vec<String> {
    paths.iter().map(|p| p.display(b'/')).collect()
}

fn entry(name: &str, kind: EntryKind) -> Entry {
    Entry { name: name.as_bytes().to_vec(), kind, len: None }
}

fn file(name: &str, len: Option<u64>) -> Entry {
    Entry { name: name.as_bytes().to_vec(), kind: EntryKind::File, len }
}

fn all(fan: Fan) -> Vec<DirPath> {
    let mut dirs = fan.spawned;
    dirs.extend(fan.kept);
    dirs
}

#[test]
fn listing_is_sorted_into_found_and_next() {
    let step = walk_dir(
        &path("/r"),
        Some(vec![
            entry("src", EntryKind::Directory),
            entry("node_modules", EntryKind::Directory),
            entry(".git", EntryKind::Directory),
            entry("package.json", EntryKind::File),
            entry("link", EntryKind::Other),
            entry("odd", EntryKind::Unknown),
            entry("apps", EntryKind::Directory),
            entry("node_modules_old", EntryKind::Directory),
        ]),
    );
    assert_eq!(show(&step.found), ["/r/node_modules"]);
    assert_eq!(show(&step.next.spawned), ["/r/src", "/r/apps"]);
    assert_eq!(step.next.kept.map(|p| p.display(b'/')), Some("/r/node_modules_old".to_string()));
}

#[test]
fn only_directories_named_node_modules_are_found() {
    let step = walk_dir(
        &path("/r"),
        Some(vec![
            entry("node_modules", EntryKind::File),
            entry("node_modules", EntryKind::Other),
            entry("node_modules", EntryKind::Unknown),
            entry("Node_Modules", EntryKind::Directory),
        ]),
    );
    assert!(step.found.is_empty());
    assert!(step.next.spawned.is_empty());
    assert_eq!(step.next.kept.unwrap().display(b'/'), "/r/Node_Modules");
}

#[test]
fn unreadable_directory_contributes_nothing() {
    let step = walk_dir(&path("/r"), None);
    assert!(step.found.is_empty());
    assert!(step.next.spawned.is_empty());
    assert!(step.next.kept.is_none());
    let step = size_dir(&path("/r"), None);
    assert_eq!(step.bytes, 0);
    assert!(all(step.next).is_empty());
}

/// A directory tree in memory.
fn tree(dir: &str) -> Option<Vec<Entry>> {
    let list: &[(&str, EntryKind)] = match dir {
        "/r" => &[
            ("node_modules", EntryKind::Directory),
            ("packages", EntryKind::Directory),
            (".git", EntryKind::Directory),
            ("a-b", EntryKind::Directory),
            ("a", EntryKind::Directory),
            ("secret", EntryKind::Directory),
        ],
        "/r/node_modules" => &[("left-pad", EntryKind::Directory), ("node_modules", EntryKind::Directory)],
        "/r/.git" => &[("node_modules", EntryKind::Directory)],
        "/r/packages" => &[("one", EntryKind::Directory), ("two", EntryKind::Directory)],
        "/r/packages/one" => &[("node_modules", EntryKind::Directory), ("index.js", EntryKind::File)],
        "/r/packages/two" => &[("deep", EntryKind::Directory)],
        "/r/packages/two/deep" => &[("node_modules", EntryKind::Directory)],
        "/r/a-b" => &[("node_modules", EntryKind::Directory)],
        "/r/a" => &[("b", EntryKind::Directory)],
        "/r/a/b" => &[("node_modules", EntryKind::Directory)],
        _ => return None,
    };
    Some(list.iter().map(|(n, k)| entry(n, *k)).collect())
}

/// Walks the tree, taking the pending directory that `pick` chooses, and notes what was read.
fn walk(pick: fn(usize) -> usize) -> (Vec<DirPath>, Vec<String>) {
    let mut pending = vec![path("/r")];
    let mut found = Vec::new();
    let mut read = Vec::new();
    while !pending.is_empty() {
        let dir = pending.remove(pick(pending.len()));
        let name = dir.display(b'/');
        let step = walk_dir(&dir, tree(&name));
        read.push(name);
        found.extend(step.found);
        pending.extend(all(step.next));
    }
    (found, read)
}

#[test]
fn every_order_finds_the_same() {
    let expected = [
        "/r/a/b/node_modules",
        "/r/a-b/node_modules",
        "/r/node_modules",
        "/r/packages/one/node_modules",
        "/r/packages/two/deep/node_modules",
    ];
    for pick in [|_| 0usize, |n| n - 1, |n| n / 2] as [fn(usize) -> usize; 3] {
        let (found, read) = walk(pick);
        let list = find(found.into_iter().map(|p| (p, None)).collect());
        assert!(list.iter().all(|f| f.bytes == 0));
        let shown: Vec<String> = list.iter().map(|f| f.path.display(b'/')).collect();
        assert_eq!(shown, expected);
        assert!(read.iter().all(|d| !d.contains("node_modules") && !d.contains(".git")));
    }
}

#[test]
fn found_directories_are_sorted_with_their_sizes() {
    let list = find(vec![
        (path("/r/z/node_modules"), Some(7)),
        (path("/r/node_modules"), Some(u64::MAX)),
        (path("/r/a/node_modules"), None),
        (path("/r/m/node_modules"), Some(0)),
    ]);
    let shown: Vec<(String, u64)> = list.iter().map(|f| (f.path.display(b'/'), f.bytes)).collect();
    assert_eq!(
        shown,
        [
            ("/r/a/node_modules".to_string(), 0),
            ("/r/m/node_modules".to_string(), 0),
            ("/r/node_modules".to_string(), u64::MAX),
            ("/r/z/node_modules".to_string(), 7),
        ]
    );
    assert!(find(Vec::new()).is_empty());
}

#[test]
fn many_directories_are_sorted() {
    let mut seed: u32 = 1;
    let mut walked = Vec::new();
    for _ in 0..5000 {
        seed = seed.wrapping_mul(1_103_515_245).wrapping_add(12_345);
        walked.push((path(&format!("/r/{}/{}", seed >> 24, seed)), Some(seed as u64)));
    }
    let mut expected: Vec<(String, String, u64)> = walked
        .iter()
        .map(|(p, s)| {
            let name = |i: usize| String::from_utf8(p.names[i].clone()).unwrap();
            (name(1), name(2), s.unwrap())
        })
        .collect();
    expected.sort();
    let list = find(walked);
    let got: Vec<(String, String, u64)> = list
        .iter()
        .map(|f| {
            let name = |i: usize| String::from_utf8(f.path.names[i].clone()).unwrap();
            (name(1), name(2), f.bytes)
        })
        .collect();
    assert_eq!(got, expected);
}

#[test]
fn regular_files_are_added_up() {
    let step = size_dir(
        &path("/r/node_modules"),
        Some(vec![
            file("a.js", Some(10)),
            file("gone.js", None),
            entry("dep", EntryKind::Directory),
            Entry { name: b"link".to_vec(), kind: EntryKind::Other, len: Some(99) },
            Entry { name: b"odd".to_vec(), kind: EntryKind::Unknown, len: Some(99) },
            file("b.js", Some(32)),
            entry("node_modules", EntryKind::Directory),
            entry(".git", EntryKind::Directory),
        ]),
    );
    assert_eq!(step.bytes, 42);
    assert_eq!(
        show(&all(step.next)),
        ["/r/node_modules/dep", "/r/node_modules/node_modules", "/r/node_modules/.git"]
    );
}

#[test]
fn sums_wrap_around() {
    let step = size_dir(&path("/r"), Some(vec![file("a", Some(u64::MAX)), file("b", Some(5))]));
    assert_eq!(step.bytes, 4);
}
