use novel_static::clock::Timestamp;
use novel_static::config::{Options, Static};
use novel_static::listing::Entry;
use novel_static::names::compare_names;
use novel_static::resolve::{PathKind, Step};

fn ts() -> Timestamp {
    Timestamp::new(0, 0, 0).unwrap()
}

fn names(v: &[Entry]) -> Vec<String> {
    v.iter().map(|e| e.name.clone()).collect()
}

#[test]
fn ordinal_name_order() {
    assert_eq!(compare_names("a", "b"), -1);
    assert_eq!(compare_names("b", "a"), 1);
    assert_eq!(compare_names("ab", "ab"), 0);
    assert_eq!(compare_names("a", "ab"), -1);
    assert_eq!(compare_names("B", "a"), -1);
    assert_eq!(compare_names("", ""), 0);
}

#[test]
fn options_defaults() {
    let o = Options::default();
    assert!(o.listing);
    assert!(o.dot_files);
    assert_eq!(o.defaults, vec!["index.html".to_string()]);
}

#[test]
fn roots_in_order() {
    assert_eq!(Static::from("www").roots, vec!["www".to_string()]);
    let s = Static::new(vec!["a", "b"], Options::default());
    assert_eq!(s.roots, vec!["a".to_string(), "b".to_string()]);
}

#[test]
fn first_root_file_is_served() {
    let s = Static::new(vec!["r1", "r2"], Options::default());
    let (mut r, step) = s.begin("/x.txt".to_string());
    assert!(matches!(step, Step::Probe(0)));
    let step = s.after_probe(&mut r, PathKind::File);
    assert!(matches!(step, Step::ServeFile(0)));
}

#[test]
fn directory_without_slash_redirects() {
    let s = Static::new(vec!["r1", "r2"], Options::default());
    let (mut r, _) = s.begin("/d".to_string());
    match s.after_probe(&mut r, PathKind::Dir) {
        Step::Redirect(p) => assert_eq!(p, "/d/"),
        _ => panic!("expected a redirect"),
    }
}

#[test]
fn index_file_wins_over_listing() {
    let s = Static::new(vec!["r1"], Options::default());
    let (mut r, _) = s.begin("/d/".to_string());
    assert!(matches!(s.after_probe(&mut r, PathKind::Dir), Step::ProbeIndex(0, 0)));
    assert!(matches!(s.after_index(&mut r, true), Step::ServeIndex(0, 0)));
}

#[test]
fn absent_everywhere_is_not_found() {
    let s = Static::new(vec!["r1", "r2"], Options::default());
    let (mut r, _) = s.begin("/nope".to_string());
    assert!(matches!(s.after_probe(&mut r, PathKind::Missing), Step::Probe(1)));
    assert!(matches!(s.after_probe(&mut r, PathKind::Missing), Step::NotFound));
    let none: Vec<&str> = Vec::new();
    let s = Static::new(none, Options::default());
    assert!(matches!(s.begin("/".to_string()).1, Step::NotFound));
}

#[test]
fn directory_with_listing_off_is_absent() {
    let mut o = Options::default();
    o.listing = false;
    let s = Static::new(vec!["r1"], o);
    let (mut r, _) = s.begin("/d/".to_string());
    assert!(matches!(s.after_probe(&mut r, PathKind::Dir), Step::NotFound));
}

#[test]
fn layered_directories_merge_first_wins_and_sort() {
    let mut o = Options::default();
    o.defaults = Vec::new();
    let s = Static::new(vec!["r1", "r2"], o);
    let (mut r, _) = s.begin("/d/".to_string());
    assert!(matches!(s.after_probe(&mut r, PathKind::Dir), Step::Scan(0)));
    let scan1 = vec![
        Entry::file("z".to_string(), 1, ts()),
        Entry::file("m".to_string(), 2, ts()),
        Entry::dir("sub".to_string(), ts()),
    ];
    assert!(matches!(s.after_scan(&mut r, scan1), Step::Probe(1)));
    assert!(matches!(s.after_probe(&mut r, PathKind::Dir), Step::Scan(1)));
    let scan2 = vec![
        Entry::file("m".to_string(), 99, ts()),
        Entry::file("c".to_string(), 3, ts()),
        Entry::dir("a".to_string(), ts()),
    ];
    assert!(matches!(s.after_scan(&mut r, scan2), Step::Listing));
    let l = r.listing();
    assert_eq!(names(&l.files), vec!["c", "m", "z"]);
    assert_eq!(l.files[1].size, 2);
    assert_eq!(names(&l.dirs), vec!["a", "sub"]);
    assert_eq!(l.path, "/d/");
}

#[test]
fn reverse_scan_order_is_sorted() {
    let mut o = Options::default();
    o.defaults = vec!["index.htm".to_string(), "index.html".to_string()];
    let s = Static::new(vec!["r1"], o);
    let (mut r, _) = s.begin("/".to_string());
    assert!(matches!(s.after_probe(&mut r, PathKind::Dir), Step::ProbeIndex(0, 0)));
    assert!(matches!(s.after_index(&mut r, false), Step::ProbeIndex(0, 1)));
    assert!(matches!(s.after_index(&mut r, false), Step::Scan(0)));
    let scan = vec![
        Entry::file("c".to_string(), 1, ts()),
        Entry::file("b".to_string(), 1, ts()),
        Entry::file("a".to_string(), 1, ts()),
    ];
    assert!(matches!(s.after_scan(&mut r, scan), Step::Listing));
    assert_eq!(names(&r.listing().files), vec!["a", "b", "c"]);
}
