use ls_option::FsNode;
use ls_option::ListOption;

fn file(path: &str, name: &str) -> FsNode {
    FsNode::File { path: path.to_string(), name: name.to_string() }
}

fn dir(path: &str, name: &str, children: Vec<FsNode>) -> FsNode {
    FsNode::Dir { path: path.to_string(), name: name.to_string(), children }
}

/// The tree used by the scenario tests: a file, a hidden file, and a
/// subdirectory holding one more file.
fn sample_tree() -> FsNode {
    dir(
        "root",
        "root",
        vec![
            file("root/a.txt", "a.txt"),
            file("root/.secret", ".secret"),
            dir("root/sub", "sub", vec![file("root/sub/b.txt", "b.txt")]),
        ],
    )
}

fn sorted(mut v: Vec<String>) -> Vec<String> {
    v.sort();
    v
}

#[test]
fn no_visibility_lists_nothing() {
    let tree = sample_tree();
    let o = ListOption::new().hidden(false).unhidden(false).recursive(true);
    assert_eq!(o.list(Some(&tree)), Vec::<String>::new());
}

#[test]
fn no_type_lists_nothing() {
    let tree = sample_tree();
    let o = ListOption::new().dir(false).file(false).recursive(true).hidden(true);
    assert_eq!(o.list(Some(&tree)), Vec::<String>::new());
}

#[test]
fn same_call_twice_same_result() {
    let tree = sample_tree();
    let o = ListOption::new().recursive(true).ext("txt");
    let first = o.list(Some(&tree));
    let second = o.list(Some(&tree));
    assert_eq!(first, second);
}

#[test]
fn depth_zero_lists_at_most_the_root() {
    // The root is always depth-eligible: with no descent left it is
    // still judged by the type, visibility and suffix filters, and
    // nothing below it is visited.
    let tree = sample_tree();
    assert_eq!(ListOption::new().level(0).list(Some(&tree)), vec!["root".to_string()]);
    let lone = file("notes.txt", "notes.txt");
    assert_eq!(ListOption::new().level(0).list(Some(&lone)), vec!["notes.txt".to_string()]);
}

#[test]
fn depth_zero_root_still_filtered() {
    let tree = sample_tree();
    let only_files = ListOption::new().only_file().level(0);
    assert_eq!(only_files.list(Some(&tree)), Vec::<String>::new());
    let wrong_suffix = ListOption::new().level(0).ext("rs");
    assert_eq!(wrong_suffix.list(Some(&tree)), Vec::<String>::new());
}

#[test]
fn depth_one_stays_shallow() {
    let tree = sample_tree();
    let listed = ListOption::new().level(1).list(Some(&tree));
    assert!(!listed.contains(&"root/sub/b.txt".to_string()));
    assert_eq!(
        sorted(listed),
        vec!["root".to_string(), "root/a.txt".to_string(), "root/sub".to_string()]
    );
}

#[test]
fn depth_two_reaches_one_more_level() {
    let deep = dir(
        "root",
        "root",
        vec![dir(
            "root/sub",
            "sub",
            vec![dir("root/sub/inner", "inner", vec![file("root/sub/inner/c.txt", "c.txt")])],
        )],
    );
    let listed = ListOption::new().level(2).list(Some(&deep));
    assert!(listed.contains(&"root/sub/inner".to_string()));
    assert!(!listed.contains(&"root/sub/inner/c.txt".to_string()));
}

#[test]
fn recursive_ignores_the_level() {
    let tree = sample_tree();
    let with_zero = ListOption::new().recursive(true).level(0).list(Some(&tree));
    let with_nine = ListOption::new().recursive(true).level(9).list(Some(&tree));
    assert_eq!(with_zero, with_nine);
    assert!(with_zero.contains(&"root/sub/b.txt".to_string()));
}

#[test]
fn absent_root_lists_nothing() {
    let o = ListOption::new().recursive(true);
    assert_eq!(o.list(None), Vec::<String>::new());
}

#[test]
fn scenario_recursive_files_only() {
    let tree = sample_tree();
    let o = ListOption::new()
        .file(true)
        .dir(false)
        .unhidden(true)
        .hidden(false)
        .recursive(true);
    assert_eq!(
        sorted(o.list(Some(&tree))),
        vec!["root/a.txt".to_string(), "root/sub/b.txt".to_string()]
    );
}

#[test]
fn scenario_one_level_both_kinds() {
    let tree = sample_tree();
    let o = ListOption::new().file(true).dir(true).level(1).recursive(false);
    let listed = o.list(Some(&tree));
    assert!(listed.contains(&"root/a.txt".to_string()));
    assert!(listed.contains(&"root/sub".to_string()));
    assert!(!listed.contains(&"root/sub/b.txt".to_string()));
    assert_eq!(
        sorted(listed),
        vec!["root".to_string(), "root/a.txt".to_string(), "root/sub".to_string()]
    );
}

#[test]
fn listing_order_is_root_then_children_depth_first() {
    let tree = sample_tree();
    let o = ListOption::new().hidden(true).recursive(true);
    assert_eq!(
        o.list(Some(&tree)),
        vec![
            "root".to_string(),
            "root/a.txt".to_string(),
            "root/.secret".to_string(),
            "root/sub".to_string(),
            "root/sub/b.txt".to_string(),
        ]
    );
}

#[test]
fn hidden_only_lists_dotted_names() {
    let tree = sample_tree();
    let o = ListOption::new().only_hidden().recursive(true);
    assert_eq!(o.list(Some(&tree)), vec!["root/.secret".to_string()]);
}

#[test]
fn empty_directory_lists_itself() {
    let empty = dir("root", "root", vec![]);
    assert_eq!(ListOption::new().list(Some(&empty)), vec!["root".to_string()]);
}

#[test]
fn lone_file_root_is_listed() {
    let lone = file("notes.txt", "notes.txt");
    assert_eq!(ListOption::new().list(Some(&lone)), vec!["notes.txt".to_string()]);
}

#[test]
fn listing_never_repeats_an_entry() {
    let tree = sample_tree();
    let mut listed = ListOption::new().hidden(true).recursive(true).list(Some(&tree));
    let n = listed.len();
    listed.sort();
    listed.dedup();
    assert_eq!(listed.len(), n);
}

#[test]
fn would_show_judges_one_node() {
    let o = ListOption::new();
    assert!(o.would_show(&file("a.txt", "a.txt")));
    assert!(!o.would_show(&file(".hidden", ".hidden")));
    assert!(o.would_show(&dir("sub", "sub", vec![])));
    let files_only = ListOption::new().only_file();
    assert!(!files_only.would_show(&dir("sub", "sub", vec![])));
    let zero = ListOption::new().level(0);
    assert!(!zero.would_show(&file("a.txt", "a.txt")));
    let zero_rec = ListOption::new().level(0).recursive(true);
    assert!(zero_rec.would_show(&file("a.txt", "a.txt")));
}
