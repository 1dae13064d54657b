use grux::file_util::{replace_web_root_in_path, split_path};
use grux::path_security::{
    check_path_secure, full_file_path, normalize_path, secure_path_verdict, BlockedFilePatternMatching,
    WhitelistedFilePatternMatching,
};

const CWD: &str = "/home/grux/server";

fn blocked_defaults() -> BlockedFilePatternMatching {
    BlockedFilePatternMatching::new(vec![
        ".*".to_string(),
        "*.php".to_string(),
        "*.tmp".to_string(),
        "*.config".to_string(),
        "*.bak".to_string(),
        "*.log".to_string(),
        "*.key".to_string(),
        "*.pem".to_string(),
    ])
}

fn whitelisted_defaults() -> WhitelistedFilePatternMatching {
    WhitelistedFilePatternMatching::new(vec!["*/.well-known/*".to_string()])
}

#[test]
fn file_util_test_split_path_unix_path() {
    let (dir, file) = split_path("/path1/path2", "/path1/path2/index.php");
    assert_eq!(dir, "/path1/path2");
    assert_eq!(file, "/index.php");
}

#[test]
fn file_util_test_split_path_multiple_paths_file() {
    let (dir, file) = split_path("C:/test/test2/test3", "C:/test/test2/test3/test4/test5/file.txt");
    assert_eq!(dir, "C:/test/test2/test3");
    assert_eq!(file, "/test4/test5/file.txt");
}

#[test]
fn test_grux_file_util_test_split_path_unix_path() {
    let (dir, file) = grux::path_security::split_path("/path1/path2", "/path1/path2/index.php");
    assert_eq!(dir, "/path1/path2");
    assert_eq!(file, "index.php");
}

#[test]
fn test_grux_file_util_test_split_path_multiple_paths_file() {
    let (dir, file) =
        grux::path_security::split_path("C:/test/test2/test3", "C:/test/test2/test3/test4/test5/file.txt");
    assert_eq!(dir, "C:/test/test2/test3");
    assert_eq!(file, "test4/test5/file.txt");
}

#[test]
fn split_path_outside_base_and_backslashes() {
    let (dir, file) = split_path("/var/www/", "/etc/passwd");
    assert_eq!(dir, "");
    assert_eq!(file, "/etc/passwd");
    let (dir, file) = split_path("C:\\www\\", "C:\\www\\a\\b.txt");
    assert_eq!(dir, "C:/www");
    assert_eq!(file, "/a/b.txt");
}

#[test]
fn split_join_round_trip() {
    let (dir, file) = grux::path_security::split_path("/srv/site", "/srv/site/css/app.css");
    assert_eq!(dir, "/srv/site");
    assert_eq!(file, "css/app.css");
}

#[test]
fn test_full_path_is_unchanged() {
    let abs_str = format!("{}/foo/bar.txt", CWD);
    let result = full_file_path(CWD, &abs_str);
    assert_eq!(result, abs_str);
}

#[test]
fn test_relative_path_is_expanded() {
    let expected = format!("{}/foo/bar.txt", CWD);
    assert_eq!(full_file_path(CWD, "foo/bar.txt"), expected);
}

#[test]
fn test_dot_and_dotdot_are_cleaned() {
    let expected = format!("{}/foo/bar/baz.txt", CWD);
    assert_eq!(full_file_path(CWD, "foo/./bar/../baz.txt"), expected);
}

#[test]
fn test_duplicate_slashes() {
    let expected = format!("{}/foo/bar/baz.txt", CWD);
    assert_eq!(full_file_path(CWD, "foo//bar///baz.txt"), expected);
}

#[test]
fn test_windows_path() {
    let expected = format!("{}/foo/bar/baz.txt", CWD);
    assert_eq!(full_file_path(CWD, "foo\\bar\\baz.txt"), expected);
}

#[test]
fn test_absolute_windows_path_cross_platform() {
    assert_eq!(full_file_path(CWD, "C:\\foo\\bar.txt"), "C:/foo/bar.txt");
}

#[test]
fn test_absolute_linux_path() {
    assert_eq!(full_file_path(CWD, "/tmp/foo/bar.txt"), "/tmp/foo/bar.txt");
}

#[test]
fn normalize_strips_parent_segments() {
    assert_eq!(normalize_path("/../etc/passwd"), "/etc/passwd");
    assert_eq!(normalize_path("/"), "/");
    assert_eq!(normalize_path(""), "");
    assert_eq!(normalize_path("a/./b//c/"), "a/b/c");
}

#[test]
fn path_traversal_is_forbidden() {
    let normalized = normalize_path("/../etc/passwd");
    assert_eq!(normalized, "/etc/passwd");
    assert!(!check_path_secure("/var/www", &normalized, &whitelisted_defaults(), &blocked_defaults()));
}

#[test]
fn blocked_extension_is_forbidden() {
    assert!(!check_path_secure("/var/www", "/var/www/index.php", &whitelisted_defaults(), &blocked_defaults()));
    let no_php = BlockedFilePatternMatching::new(vec!["*.tmp".to_string()]);
    assert!(check_path_secure("/var/www", "/var/www/index.php", &whitelisted_defaults(), &no_php));
}

#[test]
fn test_check_path_secure_blocked_extensions_matching() {
    let w = whitelisted_defaults();
    let b = blocked_defaults();
    assert!(check_path_secure("/var/www", "/var/www/index.html", &w, &b));
    assert!(check_path_secure("/var/www", "/var/www/styles.css", &w, &b));
    assert!(check_path_secure("/var/www", "/var/www/mysubdir/styles.css", &w, &b));

    assert!(!check_path_secure("/var/www", "/var/www/index.php", &w, &b));
    assert!(!check_path_secure("/var/www", "/var/index.html", &w, &b));
    assert!(!check_path_secure("/var/www/html", "/var/www/index.php", &w, &b));
    assert!(!check_path_secure("/var/www/html", "/index.php", &w, &b));
    assert!(!check_path_secure("/var/www/html", "/etc/passwd", &w, &b));
    assert!(!check_path_secure("/var/www", "/var/www/index.key", &w, &b));
    assert!(!check_path_secure("/var/www", "/var/www/index.pem", &w, &b));
}

#[test]
fn whitelist_overrides_blocklist() {
    assert!(check_path_secure(
        "/var/www",
        "/var/www/.well-known/acme-challenge/tok",
        &whitelisted_defaults(),
        &blocked_defaults()
    ));
}

#[test]
fn verdict_combines_root_and_lookups() {
    assert!(!secure_path_verdict("/var/www", "/var/index.html", true, false));
    assert!(secure_path_verdict("/var/www", "/var/www/a", false, false));
    assert!(!secure_path_verdict("/var/www", "/var/www/a", false, true));
    assert!(secure_path_verdict("/var/www", "/var/www/a", true, true));
}

#[test]
fn test_blocked_file_pattern_matching() {
    let blocked_matching = blocked_defaults();
    assert!(blocked_matching.is_file_pattern_blocked("index.php"));
    assert!(blocked_matching.is_file_pattern_blocked("test.tmp"));
    assert!(blocked_matching.is_file_pattern_blocked(".env"));
    assert!(blocked_matching.is_file_pattern_blocked(".env.example"));
    assert!(blocked_matching.is_file_pattern_blocked(".web.config"));
    assert!(blocked_matching.is_file_pattern_blocked("web.config"));
    assert!(!blocked_matching.is_file_pattern_blocked("index.html"));
    assert!(!blocked_matching.is_file_pattern_blocked("index.css"));
    assert!(blocked_matching.is_file_pattern_blocked("index.php.bak"));
    assert!(blocked_matching.is_file_pattern_blocked("mylog.log"));
    assert!(blocked_matching.is_file_pattern_blocked(".DS_Store"));
    assert!(blocked_matching.is_file_pattern_blocked(".whatever"));
}

#[test]
fn test_whitelisted_file_pattern_matching() {
    let whitelisted_matching = whitelisted_defaults();
    assert!(whitelisted_matching.is_file_pattern_whitelisted("/var/www/html/.well-known/acme-challenge/token"));
    assert!(!whitelisted_matching.is_file_pattern_whitelisted("/var/www/html/.DS_STORE"));
    assert!(!whitelisted_matching.is_file_pattern_whitelisted("/var/www/html/.env"));
}

#[test]
fn patterns_ignore_case() {
    let b = BlockedFilePatternMatching::new(vec!["*.PHP".to_string()]);
    assert!(b.is_file_pattern_blocked("Index.php"));
}

#[test]
fn replace_web_root_moves_and_returns() {
    let moved = replace_web_root_in_path("/var/www/site/index.html", "/var/www/site/", "C:\\sites\\a");
    assert_eq!(moved, "C:/sites/a/index.html");
    let back = replace_web_root_in_path(&moved, "C:/sites/a", "/var/www/site");
    assert_eq!(back, "/var/www/site/index.html");
    assert_eq!(replace_web_root_in_path("/var/www/site", "/var/www/site", "/srv"), "/srv");
    assert_eq!(replace_web_root_in_path("/other/x", "/var/www", "/srv"), "/other/x");
    assert_eq!(replace_web_root_in_path("/var/www//x", "/var/www", "/srv"), "/srv/x");
}

#[test]
fn sibling_directory_is_not_inside_root() {
    let none = BlockedFilePatternMatching::new(vec![]);
    let w = WhitelistedFilePatternMatching::new(vec![]);
    assert!(!check_path_secure("/var/www", "/var/www2/x", &w, &none));
    assert!(!secure_path_verdict("/var/www/", "/var/wwwx", false, false));
    assert!(check_path_secure("/var/www", "/var/www", &w, &none));
    assert!(check_path_secure("/var/www/", "/var/www/a/b", &w, &none));
    assert!(check_path_secure("C:\\www", "C:\\www\\a", &w, &none));
}
