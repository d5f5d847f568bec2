use line_counter::ignore::{effective_ignore_set, ignore_file_name, is_ignored, parse_ignore_list};

#[test]
fn ignore_list_lines_are_trimmed_and_blank_ones_dropped() {
    let r = parse_ignore_list("  foo  \n\nbar\r\n   \n\tbaz");
    assert_eq!(r, vec!["foo".to_string(), "bar".to_string(), "baz".to_string()]);
}

#[test]
fn empty_ignore_list() {
    assert!(parse_ignore_list("").is_empty());
    assert!(parse_ignore_list("\n \n").is_empty());
}

#[test]
fn ignore_set_merges_given_names_list_and_own_name() {
    let extra = vec!["x".to_string()];
    let list = "a\n b \n".to_string();
    let r = effective_ignore_set(&extra, Some(&list));
    assert_eq!(
        r,
        vec!["x".to_string(), "a".to_string(), "b".to_string(), ".lcignore".to_string()]
    );
    let r2 = effective_ignore_set(&extra, None);
    assert_eq!(r2, vec!["x".to_string(), ".lcignore".to_string()]);
}

#[test]
fn membership() {
    let set = vec!["a".to_string(), "target".to_string()];
    assert!(is_ignored(&"target".to_string(), &set));
    assert!(!is_ignored(&"targets".to_string(), &set));
    assert!(!is_ignored(&"x".to_string(), &Vec::new()));
}

#[test]
fn the_list_file_name() {
    assert_eq!(ignore_file_name(), ".lcignore");
}
