use block_confidence_monitor::search::{add_ascending, stable_order};
use block_confidence_monitor::text::{
    add_name, comes_before, decimal_text, has_char, read_number, same_text, signed_text, split_list,
};
use block_confidence_monitor::time::{earlier_of, format_duration, later_of, read_log_time, Timestamp};

#[test]
fn numbers_are_read() {
    assert_eq!(read_number("1713769", 0xffff_ffff), 1713769);
    assert_eq!(read_number("4294967295", 0xffff_ffff), 4294967295);
    assert_eq!(read_number("4294967296", 0xffff_ffff), 0);
    assert_eq!(read_number("18446744073709551615", u64::MAX), u64::MAX);
    assert_eq!(read_number("18446744073709551616", u64::MAX), 0);
    assert_eq!(read_number("+7", 10), 7);
    assert_eq!(read_number("", 10), 0);
    assert_eq!(read_number("+", 10), 0);
    assert_eq!(read_number("-1", 10), 0);
    assert_eq!(read_number("1x", 10), 0);
    assert_eq!(read_number("٣", 10), 0);
}

#[test]
fn numbers_are_written() {
    assert_eq!(decimal_text(0), "0");
    assert_eq!(decimal_text(30400616), "30400616");
    assert_eq!(decimal_text(u128::MAX), "340282366920938463463374607431768211455");
    assert_eq!(signed_text(-1250), "-1250");
    assert_eq!(signed_text(0), "0");
}

#[test]
fn lists_are_split() {
    assert_eq!(split_list("0xaa, 0xbb ,,\t0xcc\n"), vec!["0xaa", "0xbb", "0xcc"]);
    assert!(split_list(" , ").is_empty());
    assert!(split_list("").is_empty());
    assert_eq!(split_list("\u{a0}x\u{2003}"), vec!["x"]);
}

#[test]
fn texts_are_ordered() {
    assert!(comes_before("a", "b"));
    assert!(comes_before("a", "aa"));
    assert!(!comes_before("aa", "aa"));
    assert!(!comes_before("b", "ab"));
    assert!(comes_before("", "a"));
    assert!(comes_before("node-10", "node-2"));
    let mut names: Vec<String> = Vec::new();
    for s in ["fetched", "created", "fetched", "advertised"] {
        add_name(&mut names, &s.to_string());
    }
    assert_eq!(names, vec!["advertised", "created", "fetched"]);
    assert!(same_text("x", "x"));
    assert!(has_char("a…b", '…'));
    assert!(!has_char("a...b", '…'));
}

#[test]
fn orders_are_stable() {
    assert_eq!(stable_order(&vec![3, 1, 2, 1, 3]), vec![1, 3, 2, 0, 4]);
    assert!(stable_order(&vec![]).is_empty());
    let mut v: Vec<u64> = Vec::new();
    for x in [5, 1, 5, 3, 1] {
        add_ascending(&mut v, x);
    }
    assert_eq!(v, vec![1, 3, 5]);
}

#[test]
fn log_times_are_read() {
    let t = read_log_time("1970-01-02 00:00:01.250").unwrap();
    assert_eq!((t.seconds(), t.sub_millis()), (86_401, 250));
    assert_eq!(Timestamp::from_millis(86_401_250), Some(t));
    let t = read_log_time("2026-03-17 11:00:34.007").unwrap();
    assert_eq!((t.seconds(), t.sub_millis()), (1_773_745_234, 7));
    assert_eq!(t.clock(), "11:00:34.007");
    assert!(read_log_time("2026-02-30 11:00:34.007").is_none());
    assert!(read_log_time("2026-03-17 25:00:34.007").is_none());
    assert!(read_log_time("yesterday").is_none());
}

#[test]
fn times_are_measured() {
    let a = Timestamp::from_millis(1_000).unwrap();
    let b = Timestamp::from_millis(3_500).unwrap();
    assert_eq!(b.since(&a), 2_500);
    assert_eq!(a.since(&b), -2_500);
    assert_eq!(a.apart(&b), 2_500);
    assert_eq!(earlier_of(a, b), a);
    assert_eq!(later_of(a, b), b);
    assert_eq!(Timestamp::epoch().clock(), "00:00:00.000");
    assert_eq!(Timestamp::from_millis(-1).unwrap().clock(), "23:59:59.999");
    assert!(Timestamp::from_millis(i64::MAX).is_none());
    assert!(Timestamp::from_millis(i64::MIN).is_none());
}

#[test]
fn leap_seconds_are_kept() {
    let read = |s: &str| read_log_time(s).unwrap();
    let leap = read("2026-03-17 11:00:60.500");
    assert_eq!(leap.clock(), "11:00:60.500");
    assert_eq!(leap.sub_millis(), 1_500);
    let (before, after) = (read("2026-03-17 11:00:59.900"), read("2026-03-17 11:01:00.100"));
    assert_eq!(later_of(before, leap), leap);
    assert_eq!(earlier_of(leap, after), leap);
    assert_eq!((leap.since(&before), before.since(&leap)), (600, -600));
    assert_eq!((after.since(&leap), leap.since(&after)), (600, -600));
    assert_eq!(after.since(&before), 200);
    let (last, next) = (read("2016-12-31 23:59:60.500"), read("2017-01-01 00:00:00.200"));
    assert_eq!(next.since(&last), -300);
    assert_eq!(last.apart(&next), 300);
    assert_eq!(earlier_of(last, next), last);
    assert!(read_log_time("2026-03-17 11:00:61.000").is_none());
    assert_eq!(Timestamp::from_parts(59, 1_999).unwrap().clock(), "00:00:60.999");
    assert!(Timestamp::from_parts(59, 2_000).is_none());
    assert!(Timestamp::from_parts(58, 1_000).is_none());
    assert!(Timestamp::from_parts(i64::MAX, 0).is_none());
    assert_eq!(Timestamp::from_parts(-1, 1_000).unwrap().clock(), "23:59:60.000");
    assert_eq!(Timestamp::from_parts(-1, 1_000).unwrap().rank(), -1_000);
}

#[test]
fn durations_in_words() {
    assert_eq!(format_duration(59_999), "0 minute");
    assert_eq!(format_duration(56 * 60_000), "56 minute");
    assert_eq!(format_duration(3_600_000), "1 hour");
    assert_eq!(format_duration(3_600_000 + 5 * 60_000), "1 hour 5 minute");
    assert_eq!(format_duration(86_400_000), "1 day");
    assert_eq!(format_duration(86_400_000 * 2 + 3_600_000 * 3), "2 day 3 hour");
    assert_eq!(format_duration(-120_000), "-2 minute");
}
