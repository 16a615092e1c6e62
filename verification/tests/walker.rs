use route_table::walk::{AssetWalk, DirEntryInfo};

fn entry(name: &str, fs_path: &str, is_dir: bool) -> DirEntryInfo {
    DirEntryInfo { name: name.to_string(), fs_path: fs_path.to_string(), is_dir }
}

#[test]
fn walk_excludes_entry_document_and_normalises_separators() {
    // A tree {a.js, b/c.css, index.html} on a filesystem whose own
    // separator is a backslash.
    let mut walk = AssetWalk::new("R".to_string());

    let root = walk.next_dir().expect("the root is pending");
    assert_eq!(root.route_path, "");
    assert_eq!(root.fs_path, "R");
    let root_entries = vec![
        entry("a.js", "R\\a.js", false),
        entry("b", "R\\b", true),
        entry("index.html", "R\\index.html", false),
    ];
    walk.visit_dir(&root.route_path, &root_entries);

    let sub = walk.next_dir().expect("the subdirectory is pending");
    assert_eq!(sub.route_path, "/b");
    assert_eq!(sub.fs_path, "R\\b");
    let sub_entries = vec![entry("c.css", "R\\b\\c.css", false)];
    walk.visit_dir(&sub.route_path, &sub_entries);

    assert!(walk.next_dir().is_none());

    let mut found: Vec<(String, String)> = walk
        .files
        .iter()
        .map(|f| (f.route_path.clone(), f.fs_path.clone()))
        .collect();
    found.sort();
    assert_eq!(
        found,
        vec![
            ("/a.js".to_string(), "R\\a.js".to_string()),
            ("/b/c.css".to_string(), "R\\b\\c.css".to_string()),
        ],
    );
}

#[test]
fn walk_keeps_entry_document_below_root() {
    // index.html is reserved only directly at the root; a nested one is an
    // ordinary asset.
    let mut walk = AssetWalk::new("R".to_string());
    let root = walk.next_dir().unwrap();
    walk.visit_dir(&root.route_path, &vec![entry("docs", "R/docs", true)]);
    let docs = walk.next_dir().unwrap();
    assert_eq!(docs.route_path, "/docs");
    walk.visit_dir(&docs.route_path, &vec![entry("index.html", "R/docs/index.html", false)]);
    assert!(walk.next_dir().is_none());
    assert_eq!(walk.files.len(), 1);
    assert_eq!(walk.files[0].route_path, "/docs/index.html");
}

#[test]
fn walk_of_empty_root_yields_nothing() {
    let mut walk = AssetWalk::new("R".to_string());
    let root = walk.next_dir().unwrap();
    walk.visit_dir(&root.route_path, &vec![]);
    assert!(walk.next_dir().is_none());
    assert!(walk.files.is_empty());
}
