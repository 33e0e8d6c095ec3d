use reframe::path::is_under;
use reframe::builtin::Context;
use reframe::util::{
    compare_version, file_pattern_match, get_current_time_millis, millis_as_u64, path_to_relative,
    reading_as_millis,
};

#[test]
fn test_file_pattern_match() {
    let patts = ["README.md", "*.iml", ".packages"];
    assert_eq!(file_pattern_match("test.iml", &patts), true);
    assert_eq!(file_pattern_match("test.txt", &patts), false);
    assert_eq!(file_pattern_match("README.md", &patts), true);
    assert_eq!(file_pattern_match("README.txt", &patts), false);
    assert_eq!(file_pattern_match(".packages", &patts), true);
    assert_eq!(file_pattern_match(".iml", &patts), false);
}

#[test]
fn test_path_to_relative() {
    let root = "/tmp";
    assert!(is_under("/tmp/satu/dua", root));
    assert_eq!(&format!("{}", path_to_relative("/tmp/satu/dua", &root)), "satu/dua");
    assert!(is_under("/tmp/satu/dua/tiga", root));
    assert_eq!(
        &format!("{}", path_to_relative("/tmp/satu/dua/tiga", &root)),
        "satu/dua/tiga"
    );
}

#[test]
fn test_compare_version() {
    assert_eq!(compare_version("0.0.1", "0.0.2"), 1);
    assert_eq!(compare_version("0.0.3", "0.0.1"), -1);
    assert_eq!(compare_version("1.2.3", "1.2.3"), 0);
    assert_eq!(compare_version("0.2.1", "0.1.1"), -1);
    assert_eq!(compare_version("0.2.1", "3.1.1"), 1);
    assert_eq!(compare_version("4.2.1", "4.1.1"), -1);
    assert_eq!(compare_version("0.0.0", "0.0.12"), 1);
    assert_eq!(compare_version("0.1.2", "0.1.2"), 0);
    assert_eq!(compare_version("1.0.0", "0.0.0"), -1);
    assert_eq!(compare_version("1.1.2", "1.2.0"), -1);
    assert_eq!(compare_version("1", "2"), 1);
}

#[test]
fn test_compare_version_empty() {
    assert_eq!(compare_version("0.2.3", ""), -1);
}

#[test]
fn compare_version_counts_signs_and_ignores_what_is_no_number() {
    // "+2" is 2, "x" weighs as 0, "-1" is -1
    assert_eq!(compare_version("+2.0.0", "2.0.0"), 0);
    assert_eq!(compare_version("x.0.0", "0.0.0"), 0);
    assert_eq!(compare_version("-1.0.0", "0.0.0"), 1);
    // a missing piece weighs nothing, a present one at least its bias
    assert_eq!(compare_version("1", "1.0"), 1);
    // numbers at the edge of the range do not overflow
    assert_eq!(compare_version("2147483647.2147483647.2147483647", "-2147483648"), -1);
    assert_eq!(compare_version("2147483648", "0"), 0);
}

#[test]
fn file_pattern_match_edge_names() {
    assert_eq!(file_pattern_match("..", &["*."]), false);
    assert_eq!(file_pattern_match("..", &[".."]), true);
    assert_eq!(file_pattern_match("a.", &["*."]), true);
    assert_eq!(file_pattern_match("archive.tar.gz", &["*.gz"]), true);
    assert_eq!(file_pattern_match("archive.tar.gz", &["*.tar.gz"]), false);
    assert_eq!(file_pattern_match("Makefile", &["*.Makefile", "Makefile"]), true);
    assert_eq!(file_pattern_match("x.iml", &[]), false);
}

#[test]
fn path_to_relative_skips_empty_pieces_and_inner_dots() {
    assert!(is_under("/tmp//satu/./dua/", "/tmp/"));
    assert_eq!(path_to_relative("/tmp//satu/./dua/", "/tmp/"), "satu/dua");
    assert!(is_under("/tmp", "/tmp"));
    assert_eq!(path_to_relative("/tmp", "/tmp"), "");
    assert!(is_under("/a/b", ""));
    assert_eq!(path_to_relative("/a/b", ""), "/a/b");
    assert!(!is_under("/tmpx/a", "/tmp"));
    assert!(!is_under("tmp/a", "/tmp"));
}

#[test]
fn clock_reads_a_time_of_this_century() {
    let first = get_current_time_millis().unwrap();
    let second = get_current_time_millis().unwrap();
    // 2001-01-01 and 2101-01-01
    assert!(first > 978_307_200_000);
    assert!(second < 4_133_980_800_000);
    assert!(second + 60_000 > first);
}

#[test]
fn milliseconds_in_64_bits() {
    assert_eq!(millis_as_u64(0), 0);
    assert_eq!(millis_as_u64(1_700_000_000_123), 1_700_000_000_123);
    assert_eq!(millis_as_u64(u64::MAX as u128), u64::MAX);
    assert_eq!(millis_as_u64(u64::MAX as u128 + 1), 0);
    assert_eq!(millis_as_u64(u128::MAX), u64::MAX);
}

#[test]
fn context_from_milliseconds() {
    assert_eq!(Context::from_millis(0), Context::at(0));
    assert_eq!(Context::from_millis(999), Context::at(0));
    assert_eq!(Context::from_millis(1_000), Context::at(1));
    assert_eq!(Context::from_millis(951_825_600_999), Context::at(951_825_600));
    assert_eq!(Context::from_millis(u64::MAX), Context::at(18_446_744_073_709_551));
}

#[test]
fn reading_of_the_clock() {
    assert_eq!(reading_as_millis(None), None);
    assert_eq!(reading_as_millis(Some(0)), Some(0));
    assert_eq!(reading_as_millis(Some(1_700_000_000_123)), Some(1_700_000_000_123));
    assert_eq!(reading_as_millis(Some(u64::MAX as u128 + 5)), Some(4));
}
