use ls_option::FsNode;
use ls_option::ListOption;

fn file(path: &str, name: &str) -> FsNode {
    FsNode::File { path: path.to_string(), name: name.to_string() }
}

fn two_files() -> FsNode {
    FsNode::Dir {
        path: "src".to_string(),
        name: "src".to_string(),
        children: vec![file("src/main.rs", "main.rs"), file("src/Cargo.toml", "Cargo.toml")],
    }
}

#[test]
fn ext_adds_a_leading_dot() {
    let tree = two_files();
    let listed = ListOption::new().only_file().ext("rs").list(Some(&tree));
    assert_eq!(listed, vec!["src/main.rs".to_string()]);
}

#[test]
fn ext_accumulates() {
    let tree = two_files();
    let listed = ListOption::new().only_file().ext("rs").ext("toml").list(Some(&tree));
    assert_eq!(listed, vec!["src/main.rs".to_string(), "src/Cargo.toml".to_string()]);
}

#[test]
fn exts_shadows_what_came_before() {
    let tree = two_files();
    let listed = ListOption::new().only_file().exts(vec!["rs"]).exts(vec!["toml"]).list(
        Some(&tree),
    );
    assert_eq!(listed, vec!["src/Cargo.toml".to_string()]);
}

#[test]
fn suf_takes_the_text_as_given() {
    // "rs" as a raw suffix also matches a name that merely ends in "rs",
    // where ext("rs") would demand ".rs".
    let bare = file("colors", "colors");
    assert!(ListOption::new().suf("rs").would_show(&bare));
    assert!(!ListOption::new().ext("rs").would_show(&bare));
}

#[test]
fn suf_accumulates() {
    let tree = two_files();
    let listed = ListOption::new().only_file().suf(".rs").suf(".toml").list(Some(&tree));
    assert_eq!(listed, vec!["src/main.rs".to_string(), "src/Cargo.toml".to_string()]);
}

#[test]
fn sufs_shadows_what_came_before() {
    let tree = two_files();
    let listed = ListOption::new().only_file().sufs(vec![".rs"]).sufs(vec![".toml"]).list(
        Some(&tree),
    );
    assert_eq!(listed, vec!["src/Cargo.toml".to_string()]);
}

#[test]
fn suffixes_match_the_full_path_string() {
    let tree = two_files();
    let listed = ListOption::new().only_file().suf("c/main.rs").list(Some(&tree));
    assert_eq!(listed, vec!["src/main.rs".to_string()]);
}

#[test]
fn empty_suffix_list_restricts_nothing() {
    let tree = two_files();
    let listed = ListOption::new().only_file().list(Some(&tree));
    assert_eq!(listed.len(), 2);
}

#[test]
fn defaults_show_unhidden_of_both_kinds_one_level() {
    let o = ListOption::new();
    assert!(o.would_show(&file("a", "a")));
    let hidden = file(".a", ".a");
    assert!(!o.would_show(&hidden));
    assert!(ListOption::default().would_show(&file("b.txt", "b.txt")));
}

#[test]
fn only_combinators_flip_both_switches() {
    let d = FsNode::Dir { path: "d".to_string(), name: "d".to_string(), children: vec![] };
    let f = file("f", "f");
    let h = file(".h", ".h");
    assert!(ListOption::new().only_dir().would_show(&d));
    assert!(!ListOption::new().only_dir().would_show(&f));
    assert!(ListOption::new().only_file().would_show(&f));
    assert!(!ListOption::new().only_file().would_show(&d));
    assert!(ListOption::new().only_hidden().would_show(&h));
    assert!(!ListOption::new().only_hidden().would_show(&f));
    assert!(ListOption::new().only_hidden().only_unhidden().would_show(&f));
    assert!(!ListOption::new().only_hidden().only_unhidden().would_show(&h));
}

#[test]
fn both_visibility_switches_on_show_everything() {
    let o = ListOption::new().hidden(true).unhidden(true);
    assert!(o.would_show(&file("a", "a")));
    assert!(o.would_show(&file(".a", ".a")));
}

#[test]
fn setters_leave_the_original_value_alone() {
    // A configuration is a plain value: deriving a second one from a
    // clone never changes the first.
    let base = ListOption::new().only_file();
    let restricted = base.clone().ext("rs");
    assert!(base.would_show(&file("a.txt", "a.txt")));
    assert!(!restricted.would_show(&file("a.txt", "a.txt")));
}
