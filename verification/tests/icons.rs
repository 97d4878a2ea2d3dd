use deskbar::icons::{distinct_icons, PathIcon};

/// A unix path as the library orders it.
fn key(path: &str) -> Vec<Vec<u8>> {
    let mut parts = Vec::new();
    if path.starts_with('/') {
        parts.push(vec![0]);
    }
    for name in path.split('/').filter(|n| !n.is_empty()) {
        let mut part = vec![3];
        part.extend_from_slice(name.as_bytes());
        parts.push(part);
    }
    parts
}

fn icon(path: &str, tag: u32) -> PathIcon<(String, u32)> {
    PathIcon { path: key(path), icon: (path.to_string(), tag) }
}

fn paths(out: &[PathIcon<(String, u32)>]) -> Vec<String> {
    out.iter().map(|i| i.icon.0.clone()).collect()
}

#[test]
fn icons_sorted_by_components_without_duplicates() {
    let out = distinct_icons(vec![
        icon("/usr/share/icons/b.png", 0),
        icon("/usr/share/icons/a.png", 1),
        icon("/usr/share/icons/b.png", 2),
        icon("/usr/share/icons/a/b.png", 3),
    ]);
    assert_eq!(
        paths(&out),
        vec!["/usr/share/icons/a/b.png", "/usr/share/icons/a.png", "/usr/share/icons/b.png"]
    );
}

#[test]
fn component_order_differs_from_text_order() {
    // As text "/a-b" sorts before "/a/b"; by components "a" precedes "a-b".
    let out = distinct_icons(vec![icon("/a-b", 0), icon("/a/b", 1)]);
    assert_eq!(paths(&out), vec!["/a/b", "/a-b"]);
    let mut as_paths = vec![std::path::PathBuf::from("/a-b"), std::path::PathBuf::from("/a/b")];
    as_paths.sort_unstable();
    assert_eq!(as_paths, vec![std::path::PathBuf::from("/a/b"), std::path::PathBuf::from("/a-b")]);
}

#[test]
fn order_and_repeats_of_input_do_not_matter() {
    let one = distinct_icons(vec![icon("/x/c", 0), icon("/x/a", 1), icon("/x/b", 2)]);
    let two = distinct_icons(vec![icon("/x/b", 3), icon("/x/a", 4), icon("/x/c", 5), icon("/x/a", 6)]);
    assert_eq!(paths(&one), paths(&two));
    assert!(distinct_icons(Vec::<PathIcon<u8>>::new()).is_empty());
}
