use teleproj::config::{existing_paths, get_paths, is_valid_path, AddOutcome, Config, ConfigError};
use teleproj::text::{get_project_name, parse_index};

#[test]
fn adding_twice_keeps_one_entry() {
    let mut c = Config::new();
    assert_eq!(c.add_path("/w/alpha".to_string()), AddOutcome::Added);
    assert_eq!(c.add_path("/w/alpha".to_string()), AddOutcome::AlreadyPresent);
    assert_eq!(c.paths, vec!["/w/alpha".to_string()]);
    assert_eq!(c.add_path("/w/beta".to_string()), AddOutcome::Added);
    assert_eq!(c.paths.len(), 2);
    assert!(c.contains_path("/w/beta"));
    assert!(!c.contains_path("/w/gamma"));
}

#[test]
fn removing_shifts_later_entries_up() {
    let mut c = Config::new();
    for p in ["/w/a", "/w/b", "/w/c"] {
        c.add_path(p.to_string());
    }
    assert_eq!(c.remove_path_by_index(1), Ok("/w/b".to_string()));
    assert_eq!(c.paths, vec!["/w/a".to_string(), "/w/c".to_string()]);
}

#[test]
fn removing_past_the_end_fails() {
    let mut c = Config::new();
    c.add_path("/w/a".to_string());
    assert_eq!(c.remove_path_by_index(1), Err(ConfigError::IndexOutOfRange));
    assert_eq!(c.paths.len(), 1);
}

#[test]
fn index_parsing() {
    assert_eq!(parse_index("0"), Some(0));
    assert_eq!(parse_index("42"), Some(42));
    assert_eq!(parse_index("+3"), Some(3));
    assert_eq!(parse_index("007"), Some(7));
    assert_eq!(parse_index(""), None);
    assert_eq!(parse_index("+"), None);
    assert_eq!(parse_index("-1"), None);
    assert_eq!(parse_index("4a"), None);
    assert_eq!(parse_index(" 4"), None);
    assert_eq!(parse_index("18446744073709551615"), Some(usize::MAX));
    assert_eq!(parse_index("18446744073709551616"), None);
    assert_eq!(parse_index("99999999999999999999x"), None);
}

#[test]
fn project_names() {
    assert_eq!(get_project_name("/home/me/apollo"), "apollo");
    assert_eq!(get_project_name("/home/me/apollo/"), "apollo");
    assert_eq!(get_project_name("/"), "unknown");
    assert_eq!(get_project_name("/home/.."), "unknown");
}

#[test]
fn keeping_flagged_paths() {
    let saved = vec!["/a".to_string(), "/b".to_string(), "/c".to_string()];
    let kept = existing_paths(&saved, &vec![true, false, true]);
    assert_eq!(kept, vec!["/a".to_string(), "/c".to_string()]);
}

#[test]
fn missing_paths_are_dropped() {
    let gone = "/no/such/place/for/teleproj/tests";
    assert!(is_valid_path("/"));
    assert!(!is_valid_path(gone));
    let saved = vec![gone.to_string(), "/".to_string()];
    assert_eq!(get_paths(&saved), vec!["/".to_string()]);
}
