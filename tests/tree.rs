use file_struct_stringer::{
    chars_equal, collect_listing, compare_paths, compare_text, display_tree, extension_allowed,
    extension_of, format_entry, is_ignored, is_ignored_name, is_last_sibling, is_visible,
    render_lines, should_include, DisplayOptions, Entry,
};

fn entry(path: &str, is_dir: bool) -> Entry {
    Entry {
        components: path.split('/').map(|c| c.to_string()).collect(),
        is_dir,
    }
}

fn file(path: &str) -> Entry {
    entry(path, false)
}

fn dir(path: &str) -> Entry {
    entry(path, true)
}

fn opts(folders_only: bool, extensions: Option<&[&str]>, dash_count: usize) -> DisplayOptions {
    DisplayOptions {
        folders_only,
        extensions: extensions.map(|l| l.iter().map(|e| e.to_string()).collect()),
        dash_count,
    }
}

fn names(v: &[String]) -> Vec<&str> {
    v.iter().map(|s| s.as_str()).collect()
}

#[test]
fn two_files_last_gets_corner() {
    let out = display_tree("root", vec![file("b.txt"), file("a.txt")], &opts(false, None, 2));
    assert_eq!(names(&out), vec!["root/", "├── a.txt", "└── b.txt"]);
}

#[test]
fn three_dashes() {
    let out = display_tree("r", vec![file("a.txt"), dir("d")], &opts(false, None, 3));
    assert_eq!(names(&out), vec!["r/", "├─── a.txt", "└─── d/"]);
}

#[test]
fn zero_dashes() {
    let out = display_tree("r", vec![file("a")], &opts(false, None, 0));
    assert_eq!(names(&out), vec!["r/", "└ a"]);
}

#[test]
fn depth_two_has_two_columns() {
    let entries = vec![
        file("sub1/sub2/file.txt"),
        dir("sub1"),
        dir("sub1/sub2"),
        file("z.txt"),
    ];
    let out = display_tree("root", entries, &opts(false, None, 2));
    assert_eq!(
        names(&out),
        vec!["root/", "├── sub1/", "│   └── sub2/", "│       └── file.txt", "└── z.txt"]
    );
    let line = &out[3];
    assert!(line.starts_with("│       └"));
}

#[test]
fn depth_two_last_ancestors_are_blank() {
    let entries = vec![dir("sub1"), dir("sub1/sub2"), file("sub1/sub2/file.txt")];
    let out = display_tree("root", entries, &opts(false, None, 2));
    assert_eq!(names(&out), vec!["root/", "└── sub1/", "    └── sub2/", "        └── file.txt"]);
}

#[test]
fn directory_without_matching_files_is_kept() {
    let entries = vec![dir("docs"), file("docs/readme.md"), file("docs/notes.txt"), file("main.rs")];
    let out = display_tree("p", entries, &opts(false, Some(&["rs"]), 2));
    assert_eq!(names(&out), vec!["p/", "├── docs/", "└── main.rs"]);
}

#[test]
fn extension_filter_ignores_case() {
    let entries = vec![
        file("A.RS"),
        file("b.Rs"),
        file("c.txt"),
        file("Makefile"),
        file(".rs"),
        file("d.rs.bak"),
        dir("src"),
        file("src/lib.rs"),
    ];
    let out = display_tree("p", entries, &opts(false, Some(&["rs"]), 2));
    assert_eq!(
        names(&out),
        vec!["p/", "├── A.RS", "├── b.Rs", "└── src/", "    └── lib.rs"]
    );
    for l in &out[1..] {
        if !l.ends_with('/') {
            assert!(l.to_lowercase().contains(".rs"));
        }
    }
}

#[test]
fn extension_list_with_upper_case() {
    let o = opts(false, Some(&["TOML", "md"]), 2);
    assert!(should_include(&file("Cargo.toml"), &o));
    assert!(should_include(&file("README.MD"), &o));
    assert!(!should_include(&file("main.rs"), &o));
}

#[test]
fn folders_only_lists_directories() {
    let entries = vec![file("a.txt"), dir("b"), file("b/c.rs"), dir("b/d")];
    let out = display_tree("p", entries, &opts(true, Some(&["rs"]), 2));
    assert_eq!(names(&out), vec!["p/", "└── b/", "    └── d/"]);
    assert!(out.iter().all(|l| l.ends_with('/')));
}

#[test]
fn skipped_directories_never_appear() {
    let entries = vec![
        dir("node_modules"),
        file("node_modules/x.js"),
        dir("web"),
        dir("web/node_modules"),
        dir("web/node_modules/pkg"),
        file("web/node_modules/pkg/index.js"),
        file("web/app.js"),
        dir(".git"),
        dir("target"),
        file("target/out.txt"),
        file("node_modules_note.txt"),
    ];
    let out = display_tree("p", entries, &opts(false, None, 2));
    assert_eq!(
        names(&out),
        vec!["p/", "├── node_modules_note.txt", "└── web/", "    └── app.js"]
    );
    assert!(out.iter().all(|l| !l.contains("node_modules/")));
}

#[test]
fn file_named_like_skipped_directory_is_kept() {
    let out = display_tree("p", vec![file("target")], &opts(false, None, 2));
    assert_eq!(names(&out), vec!["p/", "└── target"]);
}

#[test]
fn line_count_matches_selected_entries() {
    let entries = vec![dir("a"), file("a/x.rs"), file("a/y.txt"), file("z.rs"), dir(".idea")];
    let out = display_tree("p", entries, &opts(false, Some(&["rs"]), 2));
    assert_eq!(out.len() - 1, 3);
}

#[test]
fn empty_tree_is_header_only() {
    let out = display_tree(".", vec![], &opts(false, None, 2));
    assert_eq!(names(&out), vec!["./"]);
}

#[test]
fn components_order_before_dots() {
    let listing = collect_listing(vec![file("a.b"), file("a/b"), dir("a")], &opts(false, None, 2));
    let paths: Vec<String> = listing.iter().map(|e| e.components.join("/")).collect();
    assert_eq!(paths, vec!["a", "a/b", "a.b"]);
}

#[test]
fn ignored_names() {
    for n in [".git", "node_modules", "target", ".idea", ".vscode"] {
        assert!(is_ignored_name(n));
        assert!(is_ignored(n, true));
        assert!(!is_ignored(n, false));
    }
    assert!(!is_ignored("src", true));
    assert!(!is_ignored_name("Target"));
    assert!(!is_visible(&file("a/.vscode/settings.json")));
    assert!(is_visible(&file("a/settings.json")));
}

#[test]
fn extensions_of_names() {
    assert_eq!(extension_of("a.tar.gz"), Some("gz".to_string()));
    assert_eq!(extension_of(".bashrc"), None);
    assert_eq!(extension_of(".config.toml"), Some("toml".to_string()));
    assert_eq!(extension_of("foo."), Some(String::new()));
    assert_eq!(extension_of("noext"), None);
    assert_eq!(extension_of(""), None);
}

#[test]
fn allowed_extensions() {
    let l = vec!["rs".to_string(), "toml".to_string()];
    assert!(extension_allowed("toml", &l));
    assert!(!extension_allowed("TOML", &l));
    assert!(!extension_allowed("md", &l));
    assert!(!extension_allowed("rs", &vec![]));
}

#[test]
fn include_rules() {
    let none = opts(false, None, 2);
    assert!(should_include(&file("x"), &none));
    assert!(should_include(&dir("x"), &opts(true, None, 2)));
    assert!(!should_include(&file("x.rs"), &opts(true, None, 2)));
    assert!(!should_include(&file("x"), &opts(false, Some(&["rs"]), 2)));
    assert!(should_include(&dir("x"), &opts(false, Some(&["rs"]), 2)));
    assert!(should_include(&file("x.RS"), &opts(false, Some(&["Rs"]), 2)));
    assert!(!should_include(&file("x.rs"), &opts(false, Some(&[]), 2)));
}

#[test]
fn last_sibling_lookup() {
    let all = vec![dir("a"), file("a/x"), file("a/y"), file("b")];
    let p = |s: &str| s.split('/').map(|c| c.to_string()).collect::<Vec<String>>();
    assert!(!is_last_sibling(&p("a"), &all));
    assert!(is_last_sibling(&p("b"), &all));
    assert!(!is_last_sibling(&p("a/x"), &all));
    assert!(is_last_sibling(&p("a/y"), &all));
    assert!(!is_last_sibling(&p("c"), &all));
}

#[test]
fn single_entry_lines() {
    let all = vec![dir("a"), file("a/x"), file("b")];
    assert_eq!(format_entry(&all[0], &all, 2), "├── a/");
    assert_eq!(format_entry(&all[1], &all, 2), "│   └── x");
    assert_eq!(format_entry(&all[2], &all, 1), "└─ b");
}

#[test]
fn rendering_keeps_given_order() {
    let all = vec![file("b"), file("a")];
    let out = render_lines("r", &all, 2);
    assert_eq!(names(&out), vec!["r/", "├── b", "└── a"]);
}

#[test]
fn text_and_path_comparison() {
    assert_eq!(compare_text("a", "b"), -1);
    assert_eq!(compare_text("b", "a"), 1);
    assert_eq!(compare_text("ab", "a"), 1);
    assert_eq!(compare_text("", ""), 0);
    assert_eq!(compare_text("Z", "a"), -1);
    let a = vec!["a".to_string(), "b".to_string()];
    let b = vec!["a.b".to_string()];
    assert_eq!(compare_paths(&a, &b), -1);
    assert_eq!(compare_paths(&b, &a), 1);
    assert_eq!(compare_paths(&a, &a), 0);
    assert!(chars_equal("é", "é"));
    assert!(!chars_equal("a", "ab"));
}
