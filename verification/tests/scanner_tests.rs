use notebook_compiler::outline::OutlineEntry;
use notebook_compiler::scanner::{basename, scan, scan_root, stem, FsTree};

fn dir(path: &str, children: Vec<FsTree>) -> FsTree {
    FsTree::Dir { path: path.to_string(), children }
}

fn file(path: &str) -> FsTree {
    FsTree::File { path: path.to_string() }
}

#[test]
fn scan_project_with_hidden_and_disallowed_entries() {
    let tree = dir(
        "proj",
        vec![
            dir("proj/algo", vec![file("proj/algo/sort.cpp")]),
            dir("proj/.git", vec![file("proj/.git/config")]),
            file("proj/notes.md"),
        ],
    );
    let outline = scan_root(&tree);
    assert_eq!(
        outline,
        vec![
            OutlineEntry::Section("Algo".to_string()),
            OutlineEntry::SubSection("Sort".to_string()),
            OutlineEntry::File("proj/algo/sort.cpp".to_string()),
        ]
    );
}

#[test]
fn scan_of_hidden_only_directory_is_empty() {
    let tree = dir(
        "root",
        vec![
            dir("root/.cache", vec![file("root/.cache/a.cpp")]),
            file("root/.hidden.rs"),
        ],
    );
    assert_eq!(scan_root(&tree), vec![]);
}

#[test]
fn scan_of_empty_directory_is_empty() {
    let tree = dir("root", vec![]);
    assert_eq!(scan_root(&tree), vec![]);
}

#[test]
fn empty_subdirectory_contributes_no_heading() {
    let tree = dir(
        "root",
        vec![dir("root/empty", vec![]), file("root/a.rs")],
    );
    assert_eq!(
        scan_root(&tree),
        vec![
            OutlineEntry::Section("A".to_string()),
            OutlineEntry::File("root/a.rs".to_string()),
        ]
    );
}

#[test]
fn entries_below_depth_three_are_excluded() {
    let deep_file = file("r/a/b/c/d.cpp");
    let tree = dir(
        "r",
        vec![dir(
            "r/a",
            vec![dir("r/a/b", vec![dir("r/a/b/c", vec![deep_file])])],
        )],
    );
    // the file sits at depth 4: nothing of it appears, so the chain of
    // directories above it stays empty too
    assert_eq!(scan_root(&tree), vec![]);
}

#[test]
fn file_at_depth_three_gets_no_heading() {
    let tree = dir(
        "r",
        vec![dir(
            "r/a",
            vec![dir("r/a/b", vec![file("r/a/b/c.cpp")])],
        )],
    );
    assert_eq!(
        scan_root(&tree),
        vec![
            OutlineEntry::Section("A".to_string()),
            OutlineEntry::SubSection("B".to_string()),
            OutlineEntry::File("r/a/b/c.cpp".to_string()),
        ]
    );
}

#[test]
fn disallowed_extensions_never_appear() {
    let tree = dir(
        "r",
        vec![
            file("r/a.md"),
            file("r/b.exe"),
            file("r/noext"),
            file("r/c.py"),
        ],
    );
    assert_eq!(
        scan_root(&tree),
        vec![
            OutlineEntry::Section("C".to_string()),
            OutlineEntry::File("r/c.py".to_string()),
        ]
    );
}

#[test]
fn every_allowed_extension_is_kept() {
    for ext in ["cpp", "rs", "c", "h", "hpp", "py", "java", "txt"] {
        let path = format!("r/x.{}", ext);
        let tree = dir("r", vec![file(&path)]);
        let outline = scan_root(&tree);
        assert_eq!(outline.len(), 2);
        assert_eq!(outline[1], OutlineEntry::File(path));
    }
}

#[test]
fn scan_below_cap_yields_nothing() {
    let tree = dir("r", vec![file("r/a.cpp")]);
    assert_eq!(scan(&tree, 4), vec![]);
}

#[test]
fn directory_headings_are_title_cased_stems() {
    let tree = dir(
        "r",
        vec![dir(
            "r/data_structures",
            vec![file("r/data_structures/fenwick-tree.cpp")],
        )],
    );
    assert_eq!(
        scan_root(&tree),
        vec![
            OutlineEntry::Section("Data Structures".to_string()),
            OutlineEntry::SubSection("Fenwick Tree".to_string()),
            OutlineEntry::File("r/data_structures/fenwick-tree.cpp".to_string()),
        ]
    );
}

#[test]
fn basename_takes_text_after_last_slash() {
    assert_eq!(basename("a/b/c.rs"), "c.rs");
    assert_eq!(basename("plain"), "plain");
}

#[test]
fn stem_strips_the_last_extension() {
    assert_eq!(stem("fenwick.cpp"), "fenwick");
    assert_eq!(stem("archive.tar.gz"), "archive.tar");
    assert_eq!(stem("noext"), "noext");
}
