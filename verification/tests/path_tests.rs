use infinity_msfs::path::FsPath;
use infinity_msfs::stats::{stats_path, SizeTable, Stats};
use infinity_msfs::text::decimal_string;

fn p(s: &str) -> FsPath {
    FsPath::parse(s)
}

#[test]
fn parse_and_display() {
    assert_eq!(p("/a//b/./c/").display(), "/a/b/c");
    assert_eq!(p("a/b").display(), "a/b");
    assert!(p("/a").is_absolute());
    assert!(!p("a").is_absolute());
    assert_eq!(p("./x/y").component_count(), 3);
    assert_eq!(p("./x/y").component(0), ".");
    assert_eq!(p("./x/y").display(), "./x/y");
    assert_eq!(p("a/./b").component_count(), 2);
    assert_eq!(p(".").component_count(), 1);
    assert_eq!(p("/./x").display(), "/x");
    assert_eq!(p("x/y").component(1), "y");
}

#[test]
fn join_parent_and_prefix() {
    assert_eq!(p("/a").join(&p("b/c")).display(), "/a/b/c");
    assert_eq!(p("/a").join(&p("/z")).display(), "/z");
    assert_eq!(p("/a").join_str("b").display(), "/a/b");
    assert_eq!(p("/a/b").parent().unwrap().display(), "/a");
    assert!(p("/").parent().is_none());
    assert!(p("/a/b/c").starts_with(&p("/a/b")));
    assert!(!p("/a/bc").starts_with(&p("/a/b")));
    assert!(!p("a/b").starts_with(&p("/a")));
    assert_eq!(p("/a/b/c").strip_prefix(&p("/a")).unwrap().display(), "b/c");
    assert!(p("/x").strip_prefix(&p("/a")).is_none());
    assert!(p("/a/b").same_as(&p("/a/./b/")));
    assert_eq!(p("/a/b").duplicate().display(), "/a/b");
    assert_eq!(p("/a/b").without_first().display(), "a/b");
    assert_eq!(p("a/b").without_first().display(), "b");
}

#[test]
fn names_and_extensions() {
    assert_eq!(p("/a/lib.rs").file_name(), Some("lib.rs".to_string()));
    assert_eq!(p("/a/lib.rs").extension(), Some("rs".to_string()));
    assert_eq!(p("/a/archive.tar.gz").extension(), Some("gz".to_string()));
    assert_eq!(p("/a/.bashrc").extension(), None);
    assert_eq!(p("/a/Makefile").extension(), None);
    assert_eq!(p("/a/..").file_name(), None);
    assert_eq!(p("/").file_name(), None);
}

#[test]
fn size_table_and_stats() {
    let mut t = SizeTable::new();
    t.set("a", 10);
    t.set("b", 20);
    t.set("a", 11);
    assert_eq!(t.len(), 2);
    assert_eq!(t.get("a"), Some(11));
    assert_eq!(t.get("c"), None);
    let d = t.duplicate();
    assert_eq!(d.get("b"), Some(20));
    let mut s = Stats::from_loaded(t);
    assert_eq!(s.previous_size("a"), Some(11));
    s.record("a", 12);
    assert_eq!(s.previous_size("a"), Some(11));
    assert_eq!(s.current().get("a"), Some(12));
    let e = Stats::empty();
    assert_eq!(e.previous_size("a"), None);
    assert_eq!(stats_path(&p("/w")).display(), "/w/target/.infinity-msfs-stats.json");
}

#[test]
fn decimals() {
    assert_eq!(decimal_string(0), "0");
    assert_eq!(decimal_string(1234567), "1234567");
}

#[test]
fn recorded_sizes_are_the_next_builds_previous_sizes() {
    let mut loaded = SizeTable::new();
    loaded.set("gauge", 100);
    let mut s = Stats::from_loaded(loaded);
    s.record("gauge", 120);
    s.record("other", 7);
    assert_eq!(s.previous_size("gauge"), Some(100));
    let cur = s.current();
    let mut saved = SizeTable::new();
    for i in 0..cur.len() {
        let (k, v) = cur.entry(i);
        saved.set(k, v);
    }
    let next = Stats::from_loaded(saved);
    assert_eq!(next.previous_size("gauge"), Some(120));
    assert_eq!(next.previous_size("other"), Some(7));
    assert_eq!(Stats::empty().previous_size("gauge"), None);
}

#[test]
fn leading_dot_is_a_component() {
    assert!(!p("./x").starts_with(&p("x")));
    assert!(p("./x").starts_with(&p(".")));
    assert_eq!(p("a").join(&p("./c")).display(), "a/c");
    assert_eq!(p("").join(&p("./c")).display(), "./c");
    assert_eq!(p("./x").parent().unwrap().display(), ".");
    assert_eq!(p(".").file_name(), None);
    assert_eq!(p("./x").file_name(), Some("x".to_string()));
}

#[test]
fn windows_paths() {
    let w = |s: &str| FsPath::parse_host(s, true);
    let root = w("C:\\proj");
    assert!(root.is_absolute());
    assert_eq!(root.display(), "C:\\proj");
    assert_eq!(w("c:/proj/src").display(), "C:\\proj\\src");
    assert_eq!(root.join_str("D:\\out").display(), "D:\\out");
    assert_eq!(root.join_str("out\\pkg").display(), "C:\\proj\\out\\pkg");
    assert_eq!(root.join_str("\\top").display(), "C:\\top");
    assert!(!w("\\top").is_absolute());
    assert!(w("\\top").has_root());
    assert!(!w("D:rel").is_absolute());
    assert_eq!(root.join_str("D:rel").display(), "D:rel");
    assert!(w("c:\\proj\\a").starts_with(&root));
    assert!(!w("D:\\proj\\a").starts_with(&root));
    assert_eq!(w("C:\\proj\\a\\b").strip_prefix(&root).unwrap().display(), "a\\b");
    assert!(w("C:\\").parent().is_none());
    assert_eq!(w("C:\\a").parent().unwrap().display(), "C:\\");
    assert_eq!(w("C:\\a\\f.txt").extension(), Some("txt".to_string()));
    assert_eq!(FsPath::parse("C:\\a").component_count(), 1);
}
