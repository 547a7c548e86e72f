use degree_planner::text::chars_of;
use degree_planner::text::find_after_last;
use degree_planner::text::find_char;
use degree_planner::text::matches_at;
use degree_planner::text::occurs_in;
use degree_planner::text::only_digits;
use degree_planner::text::parse_half_points;
use degree_planner::text::push_credit;
use degree_planner::text::push_decimal;
use degree_planner::text::string_of;

fn halves(s: &str) -> Option<u32> {
    let chars = chars_of(s);
    parse_half_points(&chars, 0, chars.len())
}

#[test]
fn half_points_are_read_from_points() {
    assert_eq!(halves("4"), Some(8));
    assert_eq!(halves("4.0"), Some(8));
    assert_eq!(halves("5.5"), Some(11));
    assert_eq!(halves("0.5"), Some(1));
    assert_eq!(halves("007"), Some(14));
    assert_eq!(halves(""), None);
    assert_eq!(halves(".5"), None);
    assert_eq!(halves("4."), None);
    assert_eq!(halves("4.25"), None);
    assert_eq!(halves("4.50"), None);
    assert_eq!(halves("-4"), None);
    assert_eq!(halves("4a"), None);
    assert_eq!(halves("2147483647.5"), Some(u32::MAX));
    assert_eq!(halves("2147483648"), None);
    assert_eq!(halves("99999999999999999999999999"), None);
}

#[test]
fn numbers_are_written_in_decimal() {
    let mut s = String::from("x");
    push_decimal(&mut s, 0);
    push_decimal(&mut s, 907);
    push_decimal(&mut s, u64::MAX);
    assert_eq!(s, "x090718446744073709551615");
    let mut s = String::new();
    push_credit(&mut s, 0);
    s.push(' ');
    push_credit(&mut s, 1);
    s.push(' ');
    push_credit(&mut s, 24);
    s.push(' ');
    push_credit(&mut s, 25);
    assert_eq!(s, "0 0.5 12 12.5");
}

#[test]
fn characters_are_found() {
    let text = chars_of("ab cd ef");
    assert_eq!(text.len(), 8);
    assert_eq!(string_of(&text, 3, 5), "cd");
    assert_eq!(find_char(&text, 0, 8, ' '), 2);
    assert_eq!(find_char(&text, 3, 8, ' '), 5);
    assert_eq!(find_char(&text, 0, 8, 'x'), 8);
    assert_eq!(find_after_last(&text, 0, 8, ' '), 6);
    assert_eq!(find_after_last(&text, 0, 5, ' '), 3);
    assert_eq!(find_after_last(&text, 3, 5, ' '), 0);
    assert!(matches_at(&text, 0, 8, &chars_of("cd"), 3));
    assert!(!matches_at(&text, 0, 8, &chars_of("cd"), 2));
    assert!(!matches_at(&text, 0, 8, &chars_of("ef"), 7));
    assert!(occurs_in(&text, 0, 8, &chars_of("d e")));
    assert!(occurs_in(&text, 0, 8, &chars_of("ef")));
    assert!(!occurs_in(&text, 0, 7, &chars_of("ef")));
    assert!(occurs_in(&text, 0, 8, &chars_of("")));
    assert!(only_digits(&chars_of("0123456789"), 0, 10));
    assert!(!only_digits(&chars_of("12x"), 0, 3));
    assert!(only_digits(&chars_of("12x"), 0, 2));
    assert_eq!(chars_of("שלום"), vec!['ש', 'ל', 'ו', 'ם']);
}
