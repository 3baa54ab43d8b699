use fast_dedup::config::{match_mode, resolve_worker_count, walk_depth, worker_count, MatchMode, RunConfig};
use fast_dedup::filter::{normalize_extension, normalize_extensions, ScanFilter};
use fast_dedup::hasher::HashAlgorithm;

fn strings(items: &[&str]) -> Vec<String> {
    items.iter().map(|s| s.to_string()).collect()
}

fn filter(min: u64, max: u64, allowed: &[&str], denied: &[&str]) -> ScanFilter {
    ScanFilter { min_size: min, max_size: max, allowed: strings(allowed), denied: strings(denied) }
}

#[test]
fn normalizes_extensions() {
    assert_eq!(normalize_extension("jpg"), "jpg");
    assert_eq!(normalize_extension(".JPG"), "jpg");
    assert_eq!(normalize_extension("..Png"), "png");
    assert_eq!(normalize_extension("*tmp"), "tmp");
    assert_eq!(normalize_extension(".*log"), "log");
    assert_eq!(normalize_extension("*.jpg"), "jpg");
    assert_eq!(normalize_extension(".*.*TXT"), "txt");
    assert_eq!(normalize_extension("a.*b"), "a.*b");
    assert_eq!(normalize_extension(""), "");
    assert_eq!(normalize_extension("..."), "");
    assert_eq!(normalize_extension("tar.GZ"), "tar.gz");
    assert_eq!(
        normalize_extensions(&strings(&[".JPG", "*png", "gif"])),
        strings(&["jpg", "png", "gif"])
    );
}

#[test]
fn unrestricted_filter_takes_everything() {
    let f = ScanFilter::unrestricted();
    assert!(f.accepts("a/b.txt", 0));
    assert!(f.accepts("noext", u64::MAX));
    assert!(f.accepts(".hidden", 5));
    assert!(f.accepts("", 5));
}

#[test]
fn size_bounds_are_checked_first() {
    let f = filter(1024, 4096, &[], &[]);
    assert!(!f.accepts("a.txt", 500));
    assert!(f.accepts("a.txt", 1024));
    assert!(f.accepts("a.txt", 4096));
    assert!(!f.accepts("a.txt", 4097));
    let with_list = filter(1024, u64::MAX, &["jpg"], &[]);
    assert!(!with_list.accepts("a.jpg", 500));
    assert!(with_list.accepts("a.jpg", 1024));
}

#[test]
fn allowed_list_restricts() {
    let f = filter(0, u64::MAX, &["jpg", "png"], &[]);
    assert!(f.accepts("a/b.jpg", 1));
    assert!(f.accepts("a/b.PNG", 1));
    assert!(!f.accepts("a/b.gif", 1));
    assert!(!f.accepts("a/noext", 1));
    assert!(!f.accepts("a/.jpg", 1));
}

#[test]
fn denied_list_excludes() {
    let f = filter(0, u64::MAX, &[], &["tmp", "log"]);
    assert!(!f.accepts("x.tmp", 1));
    assert!(!f.accepts("x.LOG", 1));
    assert!(f.accepts("x.txt", 1));
    assert!(f.accepts("noext", 1));
}

#[test]
fn allowed_list_wins_over_denied_list() {
    let f = filter(0, u64::MAX, &["jpg"], &["jpg", "png"]);
    assert!(!f.accepts("a.jpg", 1));
    assert!(!f.accepts("a.png", 1));
    let g = filter(0, u64::MAX, &["jpg"], &["png"]);
    assert!(g.accepts("a.jpg", 1));
}

#[test]
fn extension_is_taken_as_given() {
    let f = filter(0, u64::MAX, &["jpg"], &[]);
    assert!(f.accepts_extension(Some("jpg")));
    assert!(!f.accepts_extension(Some("JPG")));
    assert!(!f.accepts_extension(None));
    assert!(filter(0, u64::MAX, &[], &[]).accepts_extension(None));
}

#[test]
fn entries_of_unknown_size_are_passed_over() {
    let f = ScanFilter::unrestricted();
    assert!(!f.accepts_entry("a.txt", None));
    assert!(f.accepts_entry("a.txt", Some(3)));
}

#[test]
fn match_mode_by_name() {
    assert_eq!(match_mode("name"), MatchMode::Name);
    assert_eq!(match_mode("Name"), MatchMode::Name);
    assert_eq!(match_mode("NAME"), MatchMode::Name);
    assert_eq!(match_mode("hash"), MatchMode::Hash);
    assert_eq!(match_mode(""), MatchMode::Hash);
    assert_eq!(match_mode("names"), MatchMode::Hash);
    assert_eq!(match_mode(" name"), MatchMode::Hash);
}

#[test]
fn worker_counts() {
    assert_eq!(worker_count(0, 8), 8);
    assert_eq!(worker_count(4, 8), 4);
    assert_eq!(worker_count(16, 8), 16);
    assert_eq!(resolve_worker_count(3), 3);
    assert!(resolve_worker_count(0) >= 1);
    assert_eq!(resolve_worker_count(0), num_cpus::get());
}

#[test]
fn walk_depth_follows_recursion() {
    assert_eq!(walk_depth(true), None);
    assert_eq!(walk_depth(false), Some(1));
}

#[test]
fn config_from_arguments() {
    let c = RunConfig::from_arguments(
        "Hash",
        "SHA256",
        false,
        &strings(&[".JPG", "*png"]),
        &strings(&["tmp"]),
        "1KB",
        "",
        4,
        true,
    );
    assert_eq!(c.match_mode, MatchMode::Hash);
    assert_eq!(c.algorithm, HashAlgorithm::Sha256);
    assert!(!c.recurse);
    assert_eq!(c.threads, 4);
    assert!(c.move_duplicates);
    assert_eq!(c.filter.min_size, 1024);
    assert_eq!(c.filter.max_size, u64::MAX);
    assert_eq!(c.filter.allowed, strings(&["jpg", "png"]));
    assert_eq!(c.filter.denied, strings(&["tmp"]));
    assert!(c.has_size_bounds());
    assert!(!c.filter.accepts("x.jpg", 500));
}

#[test]
fn default_arguments_set_no_bounds() {
    let c = RunConfig::from_arguments("hash", "md5", true, &vec![], &vec![], "0B", "", 0, false);
    assert_eq!(c.algorithm, HashAlgorithm::Md5);
    assert_eq!(c.filter.min_size, 0);
    assert_eq!(c.filter.max_size, u64::MAX);
    assert!(!c.has_size_bounds());
    assert!(c.filter.accepts("anything", 0));
    assert!(c.filter.accepts("anything", u64::MAX));
}
