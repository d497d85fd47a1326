use files::{Pattern, enumerate, enumerate_fan_out, is_match, Cli, EntryPath, Node, WalkError, DEFAULT_IGNORE};

fn file(name: &str) -> Node {
    Node { name: name.to_string(), is_dir: false, children: Vec::new() }
}

fn dir(name: &str, children: Vec<Node>) -> Node {
    Node { name: name.to_string(), is_dir: true, children }
}

fn text(p: &EntryPath) -> String {
    p.parts.join("/")
}

fn texts(v: &[EntryPath]) -> Vec<String> {
    v.iter().map(text).collect()
}

fn sorted(v: &[EntryPath]) -> Vec<String> {
    let mut r = texts(v);
    r.sort();
    r
}

fn scenario() -> Node {
    dir(
        "project",
        vec![
            file("a.txt"),
            dir(".git", vec![file("config")]),
            dir("b", vec![file("c.txt")]),
        ],
    )
}

fn default_cli(is_async: bool) -> Cli {
    match Cli::new(None, None, None, is_async) {
        Ok(c) => c,
        Err(_) => panic!("default settings must compile"),
    }
}

#[test]
fn default_pruning_scenario() {
    let cli = default_cli(false);
    let out = cli.files(&scenario());
    assert_eq!(sorted(&out), vec!["a.txt", "b", "b/c.txt"]);
}

#[test]
fn default_pruning_scenario_fan_out() {
    let cli = default_cli(true);
    let out = cli.files(&scenario());
    assert_eq!(sorted(&out), vec!["a.txt", "b", "b/c.txt"]);
}

#[test]
fn sequential_order_is_children_after_descendants() {
    let cli = default_cli(false);
    let out = cli.files(&scenario());
    assert_eq!(texts(&out), vec!["a.txt", "b/c.txt", "b"]);
}

#[test]
fn completeness_without_pruning() {
    let tree = dir(
        "root",
        vec![
            dir("d1", vec![file("f1"), dir("d2", vec![file("f2")])]),
            file("f3"),
            dir(".git", vec![file("HEAD")]),
        ],
    );
    let expected = vec![".git", ".git/HEAD", "d1", "d1/d2", "d1/d2/f2", "d1/f1", "f3"];
    assert_eq!(sorted(&enumerate(&tree, &None)), expected);
    assert_eq!(sorted(&enumerate_fan_out(&tree, &None)), expected);
}

#[test]
fn pruned_git_hides_subtree_but_not_siblings() {
    let tree = dir(
        "root",
        vec![dir(
            "D",
            vec![dir(".git", vec![file("config"), dir("objects", vec![file("x")])]), file("readme"), dir("src", vec![])],
        )],
    );
    let prune = Some(Pattern::new(DEFAULT_IGNORE).ok().unwrap());
    let expected = vec!["D", "D/readme", "D/src"];
    assert_eq!(sorted(&enumerate(&tree, &prune)), expected);
    assert_eq!(sorted(&enumerate_fan_out(&tree, &prune)), expected);
}

#[test]
fn default_pattern_prunes_git_not_gitstuff() {
    let tree = dir(
        "root",
        vec![dir("x", vec![dir(".git", vec![file("a")]), dir("gitstuff", vec![file("b")])]), dir(".hg", vec![]), dir("_darcs", vec![])],
    );
    let cli = default_cli(false);
    assert_eq!(sorted(&cli.files(&tree)), vec!["x", "x/gitstuff", "x/gitstuff/b"]);
}

#[test]
fn pruned_root_emits_nothing() {
    let tree = dir(".git", vec![file("config")]);
    let cli = default_cli(false);
    assert!(cli.files(&tree).is_empty());
    let cli = default_cli(true);
    assert!(cli.files(&tree).is_empty());
}

#[test]
fn pattern_catches_files_too() {
    let tree = dir("root", vec![file("keep.rs"), file("skip.tmp"), dir("sub", vec![file("also.tmp")])]);
    let prune = Some(Pattern::new(r"\.tmp$").ok().unwrap());
    assert_eq!(sorted(&enumerate(&tree, &prune)), vec!["keep.rs", "sub"]);
}

#[test]
fn empty_directory_tree() {
    let tree = dir("root", vec![]);
    assert!(enumerate(&tree, &None).is_empty());
    assert!(enumerate_fan_out(&tree, &None).is_empty());
}

#[test]
fn no_duplicates_in_either_mode() {
    let tree = dir(
        "root",
        vec![dir("a", vec![dir("a", vec![file("a")]), file("b")]), dir("b", vec![file("a")])],
    );
    for is_async in [false, true] {
        let out = sorted(&default_cli(is_async).files(&tree));
        let mut dedup = out.clone();
        dedup.dedup();
        assert_eq!(out, dedup);
        assert_eq!(out, vec!["a", "a/a", "a/a/a", "a/b", "b", "b/a"]);
    }
}

#[test]
fn selection_is_a_post_filter() {
    let tree = dir("root", vec![file("main.rs"), dir("src", vec![file("lib.rs"), file("notes.md")]), file("README.md")]);
    let selecting = Cli::new(None, None, Some(r"\.rs$".to_string()), false).ok().unwrap();
    let all = Cli::new(None, None, None, false).ok().unwrap();
    let selected = texts(&selecting.listing(&tree));
    let re = Pattern::new(r"\.rs$").ok().unwrap();
    let filtered: Vec<String> = all
        .listing(&tree)
        .iter()
        .filter(|p| is_match(p.parts.last().unwrap(), &Some(Pattern::new(re.source()).ok().unwrap())))
        .map(text)
        .collect();
    assert_eq!(selected, filtered);
    assert_eq!(selected, vec!["main.rs", "src/lib.rs"]);
}

#[test]
fn ignore_argument_wins_over_environment() {
    let cli = Cli::new(Some("^b$".to_string()), Some("^a\\.txt$".to_string()), None, false).ok().unwrap();
    assert_eq!(sorted(&cli.files(&scenario())), vec![".git", ".git/config", "a.txt"]);
    assert!(cli.prunes("b"));
    assert!(!cli.prunes(".git"));
}

#[test]
fn environment_pattern_used_when_no_argument() {
    let cli = Cli::new(None, Some("^a\\.txt$".to_string()), None, false).ok().unwrap();
    assert_eq!(sorted(&cli.files(&scenario())), vec![".git", ".git/config", "b", "b/c.txt"]);
}

#[test]
fn empty_ignore_disables_pruning() {
    let cli = Cli::new(Some(String::new()), None, None, false).ok().unwrap();
    assert_eq!(sorted(&cli.files(&scenario())), vec![".git", ".git/config", "a.txt", "b", "b/c.txt"]);
    assert!(!cli.prunes(".git"));
}

#[test]
fn invalid_ignore_pattern_is_an_error() {
    let r = Cli::new(Some("(".to_string()), None, None, false);
    assert!(matches!(r, Err(WalkError::Regex(_))));
}

#[test]
fn invalid_select_pattern_is_an_error() {
    let r = Cli::new(None, None, Some("[a-".to_string()), true);
    assert!(matches!(r, Err(WalkError::Regex(_))));
}

#[test]
fn settings_are_kept() {
    let cli = Cli::new(None, None, Some("x".to_string()), true).ok().unwrap();
    assert!(cli.is_async());
    assert!(cli.selects("xyz"));
    assert!(!cli.selects("abc"));
    let plain = default_cli(false);
    assert!(!plain.is_async());
    assert!(plain.selects("anything"));
    assert!(plain.prunes(".svn"));
    assert!(plain.prunes(".bzr"));
    assert!(!plain.prunes("svn"));
}

#[test]
fn children_of_a_directory_listing() {
    let cli = default_cli(false);
    let parent = EntryPath { parts: vec!["d".to_string()] };
    let names = vec!["x".to_string(), ".git".to_string(), "y".to_string()];
    let kids = cli.children(&parent, &names);
    assert_eq!(texts(&kids), vec!["d/x", "d/y"]);
    let top = EntryPath { parts: Vec::new() };
    assert_eq!(texts(&cli.children(&top, &vec![".hg".to_string(), "a".to_string()])), vec!["a"]);
}

#[test]
fn ignore_text_choice() {
    assert_eq!(files::ignore_text(&None, &None), DEFAULT_IGNORE);
    assert_eq!(files::ignore_text(&None, &Some("e".to_string())), "e");
    assert_eq!(files::ignore_text(&Some("g".to_string()), &Some("e".to_string())), "g");
}

#[test]
fn compiled_pattern_keeps_source_and_matches() {
    let p = Pattern::new("^ab+$").ok().unwrap();
    assert_eq!(p.source(), "^ab+$");
    assert!(is_match("abbb", &Some(p)));
    assert!(!is_match("xab", &Some(Pattern::new("^ab+$").ok().unwrap())));
    assert!(!is_match("anything", &None));
    assert!(Pattern::new("a(").is_err());
}

#[test]
fn child_path_and_copy() {
    let p = files::child_path(&vec!["a".to_string(), "b".to_string()], &"c".to_string());
    assert_eq!(p, vec!["a", "b", "c"]);
    let e = EntryPath { parts: p };
    assert_eq!(e.copy().parts, e.parts);
}

#[test]
fn main_lists_selected_entries() {
    let r = files::_main(None, None, Some("txt".to_string()), &scenario()).ok().unwrap();
    assert_eq!(texts(&r), vec!["a.txt", "b/c.txt"]);
    assert!(matches!(files::_main(None, Some("(".to_string()), None, &scenario()), Err(WalkError::Regex(_))));
}
