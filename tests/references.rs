use hole_backup::refs::{extract_refs, ids_from_matches, reference_in_match};
use hole_backup::text::{last_segment_of, parse_u64_from, push_decimal};

#[test]
fn references_keep_order_and_duplicates() {
    assert_eq!(extract_refs("see #123 and #45 #45"), vec![123, 45, 45]);
}

#[test]
fn references_none_in_plain_text() {
    assert_eq!(extract_refs("no references here # 12"), Vec::<u64>::new());
    assert_eq!(extract_refs(""), Vec::<u64>::new());
}

#[test]
fn references_overflow_is_dropped() {
    assert_eq!(extract_refs("#18446744073709551616 #7"), vec![7]);
    assert_eq!(extract_refs("#18446744073709551615"), vec![u64::MAX]);
}

#[test]
fn references_adjacent_and_embedded() {
    assert_eq!(extract_refs("#1#2 x#003"), vec![1, 2, 3]);
}

#[test]
fn references_non_ascii_digits_are_dropped() {
    // `\d` matches Arabic-Indic digits, which do not parse as a u64.
    assert_eq!(extract_refs("#\u{661}\u{662} #9"), vec![9]);
}

#[test]
fn matches_to_ids() {
    let ms = vec!["#12".to_string(), "12".to_string(), "#".to_string(), "#+4".to_string(), "#x".to_string()];
    assert_eq!(ids_from_matches(&ms), vec![12, 4]);
    assert_eq!(reference_in_match(&"#0".to_string()), Some(0));
    assert_eq!(reference_in_match(&"".to_string()), None);
}

#[test]
fn parse_decimal_like_std() {
    let cs: Vec<char> = "x+42".chars().collect();
    assert_eq!(parse_u64_from(&cs, 1), Some(42));
    assert_eq!(parse_u64_from(&cs, 2), Some(42));
    assert_eq!(parse_u64_from(&cs, 0), None);
    assert_eq!(parse_u64_from(&cs, 4), None);
    let plus: Vec<char> = "+".chars().collect();
    assert_eq!(parse_u64_from(&plus, 0), None);
}

#[test]
fn decimal_rendering() {
    let mut out = vec!['n'];
    push_decimal(0, &mut out);
    push_decimal(1907, &mut out);
    assert_eq!(out.iter().collect::<String>(), "n01907");
    let mut big = Vec::new();
    push_decimal(u64::MAX, &mut big);
    assert_eq!(big.iter().collect::<String>(), "18446744073709551615");
}

#[test]
fn last_segments() {
    assert_eq!(last_segment_of("a/b/c.jpg"), "c.jpg");
    assert_eq!(last_segment_of("plain"), "plain");
    assert_eq!(last_segment_of("dir/"), "");
    assert_eq!(last_segment_of(""), "");
}
