use watch_filter::clock::NANOS_PER_MILLI;
use watch_filter::config::Config;
use watch_filter::event::ObservedPath;
use watch_filter::extensions::FileExtensions;
use watch_filter::filter::PathFilter;

const THROTTLE: u128 = 300 * NANOS_PER_MILLI;

fn filter_for(patterns: &[&str], throttle: u128) -> PathFilter {
    let extensions = FileExtensions::new(patterns.iter().map(|p| p.to_string()).collect());
    PathFilter::new(&Config::new(extensions, throttle))
}

fn file(path: &str) -> ObservedPath {
    ObservedPath::new(path.to_string(), true)
}

fn not_a_file(path: &str) -> ObservedPath {
    ObservedPath::new(path.to_string(), false)
}

#[test]
fn config_keeps_what_it_was_given() {
    let config = Config::new(FileExtensions::new(vec![".md".to_string()]), THROTTLE);
    assert_eq!(config.debounce_throttle(), 300_000_000);
    assert_eq!(config.file_extensions().len(), 1);
    assert!(config.file_extensions().matches("a.md"));
}

#[test]
fn new_filter_remembers_nothing() {
    let filter = filter_for(&[".md"], THROTTLE);
    assert_eq!(filter.remembered(), 0);
    assert!(filter.matches("note.md"));
    assert!(!filter.matches("note.txt"));
}

#[test]
fn unmatched_extension_is_never_retained() {
    let mut filter = filter_for(&[".md"], THROTTLE);
    for now in [0, 1, THROTTLE, THROTTLE + 1, 10 * THROTTLE, u128::MAX] {
        assert!(!filter.should_retain_at(&file("note.txt"), now));
        assert!(!filter.should_retain_at(&file("note"), now));
    }
    assert_eq!(filter.remembered(), 0);
}

#[test]
fn directory_or_missing_path_is_never_retained() {
    let mut filter = filter_for(&[".md"], THROTTLE);
    assert!(!filter.should_retain_at(&not_a_file("folder.md"), 0));
    assert!(!filter.should_retain_at(&not_a_file("folder.md"), 10 * THROTTLE));
    assert_eq!(filter.remembered(), 0);
    assert!(filter.should_retain_at(&file("folder.md"), 10 * THROTTLE));
}

#[test]
fn first_check_is_retained() {
    for now in [0, 1, THROTTLE, u128::MAX] {
        let mut filter = filter_for(&[".md"], THROTTLE);
        assert!(filter.should_retain_at(&file("note.md"), now));
        assert_eq!(filter.remembered(), 1);
    }
}

#[test]
fn second_check_within_throttle_is_dropped() {
    let mut filter = filter_for(&[".md"], THROTTLE);
    assert!(filter.should_retain_at(&file("note.md"), 1_000));
    assert!(!filter.should_retain_at(&file("note.md"), 1_000));
    assert!(!filter.should_retain_at(&file("note.md"), 1_000 + THROTTLE - 1));
    assert_eq!(filter.remembered(), 1);
}

#[test]
fn second_check_exactly_at_throttle_is_dropped() {
    let mut filter = filter_for(&[".md"], THROTTLE);
    assert!(filter.should_retain_at(&file("note.md"), 1_000));
    assert!(!filter.should_retain_at(&file("note.md"), 1_000 + THROTTLE));
    assert!(filter.should_retain_at(&file("note.md"), 1_000 + THROTTLE + 1));
}

#[test]
fn second_check_after_throttle_is_retained() {
    let mut filter = filter_for(&[".md"], THROTTLE);
    assert!(filter.should_retain_at(&file("note.md"), 0));
    assert!(filter.should_retain_at(&file("note.md"), THROTTLE + 1));
    assert!(filter.should_retain_at(&file("note.md"), 5 * THROTTLE));
    assert_eq!(filter.remembered(), 1);
}

#[test]
fn throttle_counts_from_the_last_admission() {
    let mut filter = filter_for(&[".md"], THROTTLE);
    assert!(filter.debounce_at("note.md", 0));
    assert!(!filter.debounce_at("note.md", 200 * NANOS_PER_MILLI));
    // 400 ms after the admission, though only 200 ms after the dropped check.
    assert!(filter.debounce_at("note.md", 400 * NANOS_PER_MILLI));
}

#[test]
fn earlier_clock_reading_counts_as_no_time() {
    let mut filter = filter_for(&[".md"], THROTTLE);
    assert!(filter.debounce_at("note.md", 10 * THROTTLE));
    assert!(!filter.debounce_at("note.md", 0));
    assert!(!filter.debounce_at("note.md", 10 * THROTTLE));
}

#[test]
fn paths_are_debounced_apart() {
    let mut filter = filter_for(&[".md"], THROTTLE);
    assert!(filter.debounce_at("a.md", 0));
    assert!(filter.debounce_at("b.md", 1));
    assert!(!filter.debounce_at("a.md", 2));
    assert!(!filter.debounce_at("b.md", 3));
    assert!(filter.debounce_at("A.md", 4));
    assert_eq!(filter.remembered(), 3);
}

#[test]
fn debounce_ignores_extension_and_file_kind() {
    let mut filter = filter_for(&[".md"], THROTTLE);
    assert!(filter.debounce_at("note.txt", 0));
    assert!(!filter.debounce_at("note.txt", 1));
}

#[test]
fn zero_throttle_admits_every_later_reading() {
    let mut filter = filter_for(&[".md"], 0);
    assert!(filter.debounce_at("note.md", 5));
    assert!(!filter.debounce_at("note.md", 5));
    assert!(filter.debounce_at("note.md", 6));
}

#[test]
fn cleanup_forgets_exactly_the_stale() {
    let mut filter = filter_for(&[".md"], THROTTLE);
    assert!(filter.debounce_at("old.md", 0));
    assert!(filter.debounce_at("edge.md", 100));
    assert!(filter.debounce_at("fresh.md", THROTTLE));
    assert_eq!(filter.remembered(), 3);
    filter.cleanup_debouncer_at(THROTTLE + 100);
    assert_eq!(filter.remembered(), 2);
    // What was kept still debounces, with its old stamp.
    assert!(!filter.debounce_at("edge.md", THROTTLE + 100));
    assert!(!filter.debounce_at("fresh.md", THROTTLE + 100));
    assert!(filter.debounce_at("edge.md", THROTTLE + 101));
    // What was forgotten is admitted like a path never seen.
    assert!(filter.debounce_at("old.md", THROTTLE + 100));
}

#[test]
fn cleanup_of_fresh_entries_keeps_all() {
    let mut filter = filter_for(&[".md"], THROTTLE);
    assert!(filter.debounce_at("a.md", 10));
    assert!(filter.debounce_at("b.md", 20));
    filter.cleanup_debouncer_at(20);
    assert_eq!(filter.remembered(), 2);
    filter.cleanup_debouncer_at(0);
    assert_eq!(filter.remembered(), 2);
    filter.cleanup_debouncer_at(20 + THROTTLE + 1);
    assert_eq!(filter.remembered(), 0);
    filter.cleanup_debouncer_at(20 + THROTTLE + 2);
    assert_eq!(filter.remembered(), 0);
}

#[test]
fn batch_is_checked_in_order() {
    let mut filter = filter_for(&["md", "txt"], THROTTLE);
    let paths = vec![
        file("b.md"),
        file("skip.rs"),
        file("a.txt"),
        not_a_file("dir.md"),
        file("b.md"),
        file("c.md"),
    ];
    assert_eq!(filter.retain_at(&paths, 7), vec!["b.md", "a.txt", "c.md"]);
    assert_eq!(filter.remembered(), 3);
    assert_eq!(filter.retain_at(&paths, 8), Vec::<String>::new());
    assert_eq!(filter.retain_at(&Vec::new(), 9), Vec::<String>::new());
}

#[test]
fn clock_driven_checks_debounce_too() {
    // An hour of throttle: the second reading of the clock falls within it.
    let mut filter = filter_for(&[".md"], 3_600_000 * NANOS_PER_MILLI);
    assert!(filter.should_retain(&file("note.md")));
    assert!(!filter.should_retain(&file("note.md")));
    assert!(!filter.should_retain(&file("note.txt")));
    assert!(!filter.should_retain(&not_a_file("other.md")));
    assert!(filter.debounce("other.md"));
    assert!(!filter.debounce("other.md"));
    assert_eq!(filter.remembered(), 2);
    filter.cleanup_debouncer();
    assert_eq!(filter.remembered(), 2);
}

#[test]
fn clock_does_not_run_backwards() {
    let filter = filter_for(&[".md"], THROTTLE);
    let first = filter.now();
    let second = filter.now();
    assert!(first <= second);
}
