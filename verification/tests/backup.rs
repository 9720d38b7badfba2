use budget_tracker::data::{import_placeholder_name, join_ids, parse_ids};

#[test]
fn tag_ids_round_trip_through_the_backup_column() {
    let ids = vec![3, -12, 0, 9_223_372_036_854_775_807, -9_223_372_036_854_775_808];
    let text = join_ids(&ids);
    assert_eq!(text, "3|-12|0|9223372036854775807|-9223372036854775808");
    assert_eq!(parse_ids(&text), ids);
    assert_eq!(join_ids(&vec![]), "");
    assert_eq!(parse_ids(""), Vec::<i64>::new());
}

#[test]
fn parse_ids_skips_empty_and_malformed_pieces() {
    assert_eq!(parse_ids("1||2|"), vec![1, 2]);
    assert_eq!(parse_ids("+4|x|-|5a|7"), vec![4, 7]);
    assert_eq!(parse_ids("9223372036854775808|1"), vec![1]);
    assert_eq!(parse_ids(" 3|4"), vec![4]);
}

#[test]
fn restored_tags_get_unique_temporary_names() {
    assert_eq!(import_placeholder_name(42), "__import_tmp_42");
    assert_ne!(import_placeholder_name(1), import_placeholder_name(2));
}
