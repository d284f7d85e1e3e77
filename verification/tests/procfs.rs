use krom::procfs::{
    chars_of, decimal, exe_link_path, fd_link_path, is_all_numeric, parse_i32, parse_stat,
    split_fields, stat_ids, stat_is_parsable, ProcessIds,
};

fn parse(s: &str) -> Option<i32> {
    parse_i32(&s.chars().collect())
}

#[test]
fn parse_i32_agrees_with_std() {
    let samples = [
        "0", "7", "+7", "-7", "-0", "+0", "", "+", "-", "--1", "+-1", "1-", "12a", " 1", "1 ",
        "2147483647", "2147483648", "-2147483648", "-2147483649", "+2147483647",
        "0000000000000000000000042", "99999999999999999999", "-99999999999999999999", "٣",
        "1٣", "١٢", "0x10", "1_000",
    ];
    for s in samples {
        assert_eq!(parse(s), s.parse::<i32>().ok(), "parse {s:?}");
    }
}

#[test]
fn numeric_names() {
    assert!(is_all_numeric("1234"));
    assert!(!is_all_numeric("12a4"));
    assert!(!is_all_numeric("self"));
    assert!(is_all_numeric(""));
    assert!(is_all_numeric("٣٤"));
    assert!(is_all_numeric("Ⅻ"));
}

#[test]
fn chars_and_fields() {
    assert_eq!(chars_of("aé٣"), vec!['a', 'é', '٣']);
    let f: Vec<String> = split_fields(&"1 (a b)  S 3".chars().collect())
        .into_iter()
        .map(|v| v.into_iter().collect())
        .collect();
    assert_eq!(f, vec!["1", "(a", "b)", "", "S", "3"]);
    let f: Vec<String> =
        split_fields(&"".chars().collect()).into_iter().map(|v| v.into_iter().collect()).collect();
    assert_eq!(f, vec![""]);
}

#[test]
fn stat_of_ordinary_process() {
    let stat = "1234 (bash) S 1000 1234 1234 34816 1300 4194304 2000 0 0 0 3 1 0 0 20 0 1 0";
    assert!(stat_is_parsable(stat));
    assert_eq!(parse_stat(stat), ProcessIds { pid: 1234, parent_id: 1000 });
}

#[test]
fn stat_with_spaces_in_the_name() {
    let stat = "42 (Web Content) S 7 42 42 0 -1";
    assert_eq!(parse_stat(stat), ProcessIds { pid: 42, parent_id: 7 });
}

#[test]
fn stat_takes_the_first_numeric_field_after_the_pid() {
    let stat = "42 (a 12 b) S 7 42";
    assert_eq!(parse_stat(stat), ProcessIds { pid: 42, parent_id: 12 });
}

#[test]
fn unparsable_stats() {
    assert!(!stat_is_parsable(""));
    assert!(!stat_is_parsable("abc (x) S 1"));
    assert!(!stat_is_parsable("12 (x) S"));
    assert!(!stat_is_parsable("12 (x) S ٣"));
    assert!(!stat_is_parsable("12 (x)  S 1"));
    assert!(!stat_is_parsable("12 (x) S 99999999999"));
}

#[test]
fn decimal_agrees_with_to_string() {
    for n in [0i64, 1, 9, 10, 42, 99, 100, 12345, -1, -10, i32::MAX as i64, i32::MIN as i64, i64::MAX, i64::MIN] {
        assert_eq!(decimal(n), n.to_string().into_bytes(), "{n}");
    }
}

#[test]
fn proc_links() {
    assert_eq!(fd_link_path(3), b"/proc/self/fd/3".to_vec());
    assert_eq!(fd_link_path(1024), b"/proc/self/fd/1024".to_vec());
    assert_eq!(exe_link_path(42), b"/proc/42/exe".to_vec());
    assert_eq!(exe_link_path(1), b"/proc/1/exe".to_vec());
}

#[test]
fn stat_ids_tests_and_parses() {
    assert_eq!(stat_ids("1234 (bash) S 1000 1234"), Some(ProcessIds { pid: 1234, parent_id: 1000 }));
    assert_eq!(stat_ids("42 (a 12 b) S 7 42"), Some(ProcessIds { pid: 42, parent_id: 12 }));
    assert_eq!(stat_ids("-3 (x) S -4 5"), Some(ProcessIds { pid: -3, parent_id: 5 }));
    assert_eq!(stat_ids(""), None);
    assert_eq!(stat_ids("abc (x) S 1"), None);
    assert_eq!(stat_ids("12 (x) S"), None);
    assert_eq!(stat_ids("12 (x) S 99999999999"), None);
}
