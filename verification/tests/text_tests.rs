use xof_fighter::text::{decimal_string, format_number, truncate};

#[test]
fn format_number_small_values_have_no_separator() {
    assert_eq!(format_number(0), "0");
    assert_eq!(format_number(7), "7");
    assert_eq!(format_number(999), "999");
}

#[test]
fn format_number_groups_thousands() {
    assert_eq!(format_number(1000), "1,000");
    assert_eq!(format_number(1001), "1,001");
    assert_eq!(format_number(65432), "65,432");
    assert_eq!(format_number(1234567), "1,234,567");
    assert_eq!(format_number(100000), "100,000");
    assert_eq!(format_number(u32::MAX), "4,294,967,295");
}

#[test]
fn format_number_without_commas_is_the_plain_number() {
    for n in [0u32, 5, 999, 1000, 20_500, 1_000_000, 987_654_321, u32::MAX] {
        assert_eq!(format_number(n).replace(',', ""), n.to_string());
    }
}

#[test]
fn decimal_string_matches_to_string() {
    for n in [0u64, 9, 10, 42, 1_000_000, u64::MAX] {
        assert_eq!(decimal_string(n), n.to_string());
    }
}

#[test]
fn truncate_keeps_short_strings() {
    assert_eq!(truncate("Tekken 8", 20), "Tekken 8");
    assert_eq!(truncate("exactly5", 8), "exactly5");
    assert_eq!(truncate("", 0), "");
}

#[test]
fn truncate_cuts_with_ellipsis() {
    assert_eq!(truncate("Street Fighter 6", 8), "Street …");
    assert_eq!(truncate("abcdef", 1), "…");
    assert_eq!(truncate("Ünïcödé name", 5), "Ünïc…");
    assert_eq!(truncate("Ünïcödé name", 5).chars().count(), 5);
}

#[test]
fn truncating_twice_is_truncating_once() {
    for (s, m) in [("Street Fighter 6", 8usize), ("short", 10), ("Ünïcödé name", 3), ("abc", 1)] {
        let once = truncate(s, m);
        assert_eq!(truncate(&once, m), once);
        assert!(once.chars().count() <= m);
        if once != s {
            let kept: String = once.chars().take(m - 1).collect();
            assert!(s.starts_with(&kept));
            assert!(once.ends_with('…'));
        }
    }
}
