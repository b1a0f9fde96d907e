use std::collections::HashSet;
use xof_fighter::games::{allowed_ids, builtin_ids, parse_user_config};

#[test]
fn builtin_list_has_the_known_games() {
    let ids = builtin_ids();
    assert_eq!(ids.len(), 69);
    assert!(ids.contains(&1778820)); // Tekken 8
    assert!(ids.contains(&1364780)); // Street Fighter 6
    assert!(ids.contains(&1451190)); // Undisputed
    assert!(!ids.contains(&730));
}

#[test]
fn allowed_ids_without_user_list_is_builtin() {
    assert_eq!(allowed_ids(None), builtin_ids());
}

#[test]
fn allowed_ids_uses_an_empty_user_list() {
    assert!(allowed_ids(Some(HashSet::new())).is_empty());
}

#[test]
fn allowed_ids_prefers_a_user_list() {
    let user: HashSet<u32> = [5u32, 6].into_iter().collect();
    assert_eq!(allowed_ids(Some(user.clone())), user);
}

#[test]
fn user_config_reads_one_id_per_line() {
    let content = "# my games\n1778820\n  389730  # Tekken 7\n\nnot a number\n+12\n-5\n4294967296\n7\r\n   \n99";
    let expected: HashSet<u32> = [1778820u32, 389730, 12, 7, 99].into_iter().collect();
    assert_eq!(parse_user_config(content), expected);
}

#[test]
fn user_config_of_comments_only_is_empty() {
    assert!(parse_user_config("# nothing\n#1778820\n").is_empty());
    assert!(parse_user_config("").is_empty());
    let only_comments = parse_user_config("#1\n  # 2\n");
    assert!(allowed_ids(Some(only_comments)).is_empty());
}

#[test]
fn user_config_edge_numbers() {
    let ids = parse_user_config("4294967295\n0\n+\n12a\n\t42\t");
    let expected: HashSet<u32> = [4294967295u32, 0, 42].into_iter().collect();
    assert_eq!(ids, expected);
}
