use worklog_sync::dates::{
    date_to_string, days_in_month_ex, epoch_day, epoch_millis_utc_midnight, next_day,
    parse_date, parse_date_prefix, prev_day, Date,
};
use worklog_sync::strutil::{contains_str, i64_to_string, parse_u32, str_eq, str_le, u64_to_string};
use worklog_sync::updater::{is_newer, parse_version, strip_v_prefix, update_cache_fresh};

#[test]
fn str_eq_and_le() {
    assert!(str_eq("abc", "abc"));
    assert!(!str_eq("abc", "abd"));
    assert!(!str_eq("abc", "ab"));
    assert!(str_le("abc", "abd"));
    assert!(str_le("ab", "abc"));
    assert!(!str_le("abd", "abc"));
    assert!(str_le("", "a"));
    assert!(str_le("2024-03-01T00:00:00", "2024-03-01T09:00:00-05:00"));
    assert!(str_le("2024-03-01T09:00:00-05:00", "2024-03-01T23:59:59"));
}

#[test]
fn decimal_formatting() {
    assert_eq!(u64_to_string(0).as_str(), "0");
    assert_eq!(u64_to_string(907).as_str(), "907");
    assert_eq!(i64_to_string(-45).as_str(), "-45");
    assert_eq!(i64_to_string(1709164800000).as_str(), "1709164800000");
}

#[test]
fn parse_u32_cases() {
    assert_eq!(parse_u32("12"), Some(12));
    assert_eq!(parse_u32("+12"), Some(12));
    assert_eq!(parse_u32("007"), Some(7));
    assert_eq!(parse_u32(""), None);
    assert_eq!(parse_u32("+"), None);
    assert_eq!(parse_u32("1a"), None);
    assert_eq!(parse_u32("4294967295"), Some(u32::MAX));
    assert_eq!(parse_u32("4294967296"), None);
}

#[test]
fn date_parsing() {
    let d = parse_date("2024-03-01").unwrap();
    assert_eq!((d.year, d.month, d.day), (2024, 3, 1));
    assert!(parse_date("2024-13-01").is_none());
    assert!(parse_date("2024-02-30").is_none());
    assert!(parse_date("2024-3-1").is_none());
    assert!(parse_date("2024-03-01T").is_none());
    assert!(parse_date("2024-02-29").is_some());
    assert!(parse_date("2023-02-29").is_none());
    let p = parse_date_prefix("2024-03-01T09:00:00-05:00").unwrap();
    assert_eq!((p.year, p.month, p.day), (2024, 3, 1));
    assert!(parse_date_prefix("short").is_none());
}

#[test]
fn date_formatting_and_neighbours() {
    let d = Date { year: 2024, month: 3, day: 1 };
    assert_eq!(date_to_string(d).as_str(), "2024-03-01");
    let before = prev_day(d);
    assert_eq!((before.year, before.month, before.day), (2024, 2, 29));
    let after = next_day(d);
    assert_eq!((after.year, after.month, after.day), (2024, 3, 2));
    let nye = Date { year: 2023, month: 12, day: 31 };
    let ny = next_day(nye);
    assert_eq!((ny.year, ny.month, ny.day), (2024, 1, 1));
    let back = prev_day(ny);
    assert_eq!((back.year, back.month, back.day), (2023, 12, 31));
    assert_eq!(days_in_month_ex(2024, 2), 29);
    assert_eq!(days_in_month_ex(2023, 2), 28);
    assert_eq!(days_in_month_ex(2024, 4), 30);
}

#[test]
fn epoch_days() {
    let d = Date { year: 2024, month: 3, day: 1 };
    assert_eq!(epoch_day(d), 19783);
    let e = Date { year: 1970, month: 1, day: 1 };
    assert_eq!(epoch_day(e), 0);
    let feb29 = Date { year: 2024, month: 2, day: 29 };
    assert_eq!(epoch_millis_utc_midnight(feb29), 1709164800000);
}

#[test]
fn version_comparison() {
    assert!(is_newer("1.2.10", "1.2.9"));
    assert!(!is_newer("1.2.9", "1.2.10"));
    assert!(!is_newer("1.0", "1.0.0"));
    assert!(!is_newer("1.0.0", "1.0"));
    assert!(is_newer("10.0", "2.0"));
    assert!(!is_newer("2.0", "10.0"));
    assert!(is_newer("1.1", "1.0.9"));
    assert!(!is_newer("abc", "1.0"));
    assert!(!is_newer("1.x.2", "1.2"));
    let v = parse_version("1.x.2");
    assert_eq!(v.len(), 2);
    assert_eq!(v[0], 1);
    assert_eq!(v[1], 2);
}

#[test]
fn tag_and_cache() {
    assert_eq!(strip_v_prefix("v1.2.3").as_str(), "1.2.3");
    assert_eq!(strip_v_prefix("1.2.3").as_str(), "1.2.3");
    assert_eq!(strip_v_prefix("").as_str(), "");
    assert!(update_cache_fresh(1000000, 1000000 - 86399));
    assert!(!update_cache_fresh(1000000, 1000000 - 86400));
}

#[test]
fn string_list_membership() {
    let v = vec![String::from("a"), String::from("bee")];
    assert!(contains_str(&v, "bee"));
    assert!(!contains_str(&v, "b"));
}
