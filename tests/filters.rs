use findr::{
    entry_lines, filter_types, filter_walk, name_passes, process_item, run, Config, ConfigError, Entry,
    EntryType, Line, Pattern, WalkItem,
};

fn entry(path: &str, name: &str, is_dir: bool, is_file: bool, is_symlink: bool) -> Entry {
    Entry {
        path: path.to_string(),
        file_name: Some(name.to_string()),
        is_dir,
        is_file,
        is_symlink,
    }
}

fn dir(path: &str, name: &str) -> WalkItem {
    WalkItem::Found(entry(path, name, true, false, false))
}

fn file(path: &str, name: &str) -> WalkItem {
    WalkItem::Found(entry(path, name, false, true, false))
}

/// root/, root/a.txt, root/sub/, root/sub/b.txt
fn sample_walk() -> Vec<WalkItem> {
    vec![
        dir("root", "root"),
        file("root/a.txt", "a.txt"),
        dir("root/sub", "sub"),
        file("root/sub/b.txt", "b.txt"),
    ]
}

fn strings(v: &[&str]) -> Vec<String> {
    v.iter().map(|s| s.to_string()).collect()
}

fn config(names: &[&str], types: Vec<EntryType>) -> Config {
    Config::new(strings(&["root"]), strings(names), types).unwrap()
}

fn paths(lines: &[Line]) -> Vec<String> {
    lines
        .iter()
        .filter_map(|l| match l {
            Line::Path(p) => Some(p.clone()),
            Line::Problem(_) => None,
        })
        .collect()
}

fn sorted(mut v: Vec<String>) -> Vec<String> {
    v.sort();
    v
}

#[test]
fn type_codes_are_case_insensitive() {
    assert_eq!(EntryType::from_code("d"), Some(EntryType::Dir));
    assert_eq!(EntryType::from_code("D"), Some(EntryType::Dir));
    assert_eq!(EntryType::from_code("f"), Some(EntryType::File));
    assert_eq!(EntryType::from_code("F"), Some(EntryType::File));
    assert_eq!(EntryType::from_code("l"), Some(EntryType::Link));
    assert_eq!(EntryType::from_code("L"), Some(EntryType::Link));
    assert_eq!(EntryType::from_code("x"), None);
    assert_eq!(EntryType::from_code(""), None);
    assert_eq!(EntryType::from_code("dd"), None);
}

#[test]
fn default_root_is_dot() {
    let c = Config::new(vec![], vec![], vec![]).unwrap();
    assert_eq!(c.paths(), &strings(&["."]));
    assert!(c.names().is_empty());
    assert!(c.entry_types().is_empty());
}

#[test]
fn config_keeps_roots_patterns_and_kinds_in_order() {
    let c = Config::new(
        strings(&["x", "y"]),
        strings(&["a", "b+"]),
        vec![EntryType::Link, EntryType::Dir, EntryType::Link],
    )
    .unwrap();
    assert_eq!(c.paths(), &strings(&["x", "y"]));
    let sources: Vec<&str> = c.names().iter().map(|p| p.as_str()).collect();
    assert_eq!(sources, vec!["a", "b+"]);
    assert_eq!(
        c.entry_types(),
        &vec![EntryType::Link, EntryType::Dir, EntryType::Link]
    );
}

#[test]
fn invalid_pattern_is_refused() {
    let r = Config::new(strings(&["."]), strings(&["ok", "foo(bar", "["]), vec![]);
    match r {
        Err(ConfigError::InvalidPattern { pattern, message }) => {
            assert_eq!(pattern, "foo(bar");
            assert!(!message.is_empty());
        }
        Ok(_) => panic!("an invalid pattern was accepted"),
    }
}

#[test]
fn pattern_new_reports_its_source() {
    assert!(Pattern::new("*").is_err());
    let p = Pattern::new(r"b\.txt").unwrap();
    assert_eq!(p.as_str(), r"b\.txt");
}

#[test]
fn pattern_matches_anywhere_unless_anchored() {
    let loose = vec![Pattern::new("txt").unwrap()];
    assert!(name_passes(&loose, "a.txt"));
    assert!(!name_passes(&loose, "a.csv"));
    let anchored = vec![Pattern::new("^txt").unwrap()];
    assert!(!name_passes(&anchored, "a.txt"));
    assert!(name_passes(&anchored, "txt.a"));
}

#[test]
fn empty_name_filter_passes_everything() {
    assert!(name_passes(&vec![], "anything"));
    assert!(name_passes(&vec![], ""));
}

#[test]
fn name_filter_needs_one_matching_pattern() {
    let names = vec![Pattern::new(r"\.csv$").unwrap(), Pattern::new(r"^b").unwrap()];
    assert!(name_passes(&names, "b.txt"));
    assert!(name_passes(&names, "a.csv"));
    assert!(!name_passes(&names, "a.txt"));
}

#[test]
fn kinds_of_entries() {
    let d = entry("d", "d", true, false, false);
    let f = entry("f", "f", false, true, false);
    let link_to_file = entry("l", "l", false, true, true);
    let link_to_dir = entry("m", "m", true, false, true);
    assert!(filter_types(&d, &EntryType::Dir));
    assert!(!filter_types(&d, &EntryType::File));
    assert!(!filter_types(&d, &EntryType::Link));
    assert!(filter_types(&f, &EntryType::File));
    assert!(!filter_types(&f, &EntryType::Link));
    assert!(!filter_types(&link_to_file, &EntryType::File));
    assert!(filter_types(&link_to_file, &EntryType::Link));
    assert!(filter_types(&link_to_dir, &EntryType::Dir));
    assert!(filter_types(&link_to_dir, &EntryType::Link));
}

#[test]
fn error_step_gives_its_message() {
    let c = config(&["never"], vec![EntryType::File]);
    let lines = process_item(&c, &WalkItem::Failed("denied".to_string()));
    assert_eq!(lines, vec![Line::Problem("denied".to_string())]);
}

#[test]
fn name_that_is_not_text_is_skipped() {
    let c = config(&[], vec![]);
    let mut e = entry("root/x", "x", false, true, false);
    e.file_name = None;
    assert!(process_item(&c, &WalkItem::Found(e)).is_empty());
}

#[test]
fn repeated_kind_filter_repeats_the_line() {
    let c = config(&[], vec![EntryType::File, EntryType::Dir, EntryType::File]);
    let lines = process_item(&c, &file("root/a.txt", "a.txt"));
    assert_eq!(
        lines,
        vec![
            Line::Path("root/a.txt".to_string()),
            Line::Path("root/a.txt".to_string())
        ]
    );
    let lines = process_item(&c, &dir("root/sub", "sub"));
    assert_eq!(lines, vec![Line::Path("root/sub".to_string())]);
}

#[test]
fn unfiltered_walk_lists_every_entry() {
    let c = config(&[], vec![]);
    let lines = filter_walk(&c, &sample_walk());
    assert_eq!(
        paths(&lines),
        strings(&["root", "root/a.txt", "root/sub", "root/sub/b.txt"])
    );
    assert_eq!(lines.len(), 4);
}

#[test]
fn name_filter_keeps_one_file() {
    let c = config(&[r"b\.txt"], vec![]);
    let lines = filter_walk(&c, &sample_walk());
    assert_eq!(lines, vec![Line::Path("root/sub/b.txt".to_string())]);
}

#[test]
fn dir_filter_keeps_directories() {
    let c = config(&[], vec![EntryType::Dir]);
    let lines = filter_walk(&c, &sample_walk());
    assert_eq!(paths(&lines), strings(&["root", "root/sub"]));
}

#[test]
fn name_and_kind_filters_both_apply() {
    let c = config(&[r"b\."], vec![EntryType::Dir]);
    assert!(filter_walk(&c, &sample_walk()).is_empty());
    let c = config(&["s"], vec![EntryType::Dir]);
    assert_eq!(paths(&filter_walk(&c, &sample_walk())), strings(&["root/sub"]));
}

#[test]
fn link_to_file_is_no_file() {
    let walk = vec![
        dir("root", "root"),
        file("root/a.txt", "a.txt"),
        WalkItem::Found(entry("root/link", "link", false, true, true)),
    ];
    let files = filter_walk(&config(&[], vec![EntryType::File]), &walk);
    assert_eq!(paths(&files), strings(&["root/a.txt"]));
    let links = filter_walk(&config(&[], vec![EntryType::Link]), &walk);
    assert_eq!(paths(&links), strings(&["root/link"]));
}

#[test]
fn unreadable_subtree_is_reported_and_walk_goes_on() {
    let walk = vec![
        dir("root", "root"),
        WalkItem::Failed("IO error for operation on root/locked: Permission denied".to_string()),
        file("root/a.txt", "a.txt"),
    ];
    let lines = filter_walk(&config(&[], vec![]), &walk);
    assert_eq!(
        lines,
        vec![
            Line::Path("root".to_string()),
            Line::Problem("IO error for operation on root/locked: Permission denied".to_string()),
            Line::Path("root/a.txt".to_string()),
        ]
    );
}

#[test]
fn roots_come_out_in_order() {
    let c = Config::new(strings(&["one", "two"]), vec![], vec![]).unwrap();
    let walks = vec![
        vec![dir("one", "one"), file("one/x", "x")],
        vec![dir("two", "two"), file("two/y", "y")],
    ];
    let lines = run(&c, &walks);
    assert_eq!(paths(&lines), strings(&["one", "one/x", "two", "two/y"]));
}

#[test]
fn sibling_order_does_not_change_the_set_of_paths() {
    let c = config(&["txt"], vec![]);
    let mut reordered = sample_walk();
    reordered.swap(1, 2);
    reordered.swap(2, 3);
    let first = sorted(paths(&run(&c, &vec![sample_walk()])));
    let second = sorted(paths(&run(&c, &vec![reordered])));
    assert_eq!(first, second);
    assert_eq!(first, strings(&["root/a.txt", "root/sub/b.txt"]));
}

#[test]
fn empty_walks_print_nothing() {
    let c = config(&[], vec![]);
    assert!(run(&c, &vec![]).is_empty());
    assert!(filter_walk(&c, &vec![]).is_empty());
}

#[test]
fn entry_lines_counts_kind_filters() {
    let link = entry("r/l", "l", true, false, true);
    assert_eq!(entry_lines(&vec![], &link), vec![Line::Path("r/l".to_string())]);
    assert!(entry_lines(&vec![EntryType::File], &link).is_empty());
    assert_eq!(
        entry_lines(&vec![EntryType::Dir, EntryType::Link, EntryType::File], &link),
        vec![Line::Path("r/l".to_string()), Line::Path("r/l".to_string())]
    );
}
