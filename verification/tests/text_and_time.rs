use jellyswarrm::decimal::decimal_text;
use jellyswarrm::text::{
    before, contains, eq_ignore_ascii_case, split, str_eq, trim, trim_end, trim_start, CharClass,
};
use jellyswarrm::time::{Timestamp, EARLIEST_SECOND, LATEST_SECOND};

#[test]
fn numbers_are_written_in_decimal() {
    for number in [0, 7, 10, -1, -120, i64::MAX, i64::MIN] {
        assert_eq!(decimal_text(number), number.to_string());
    }
}

#[test]
fn ends_are_trimmed() {
    let spaces = "\u{9}\u{a}\u{b}\u{c}\u{d} \u{85}\u{a0}\u{1680}\u{2000}\u{200a}\u{2028}\u{2029}\u{202f}\u{205f}\u{3000}";
    let text = format!("{spaces}a b{spaces}");
    assert_eq!(trim(&text, CharClass::WhiteSpace), "a b");
    assert_eq!(trim(&text, CharClass::WhiteSpace), text.trim());
    assert_eq!(trim("\u{200b}", CharClass::WhiteSpace), "\u{200b}");
    assert_eq!(trim("//a/b//", CharClass::Slash), "a/b");
    assert_eq!(trim_start("//a/", CharClass::Slash), "a/");
    assert_eq!(trim_end("//a/", CharClass::Slash), "//a");
    assert_eq!(trim("///", CharClass::Slash), "");
}

#[test]
fn texts_are_split_and_searched() {
    assert_eq!(split("a/b//c", '/'), vec!["a", "b", "", "c"]);
    assert_eq!(split("", '/'), vec![""]);
    assert_eq!(split("ü:é", ':'), vec!["ü", "é"]);
    assert_eq!(before("user:tv", ':'), "user");
    assert_eq!(before("user", ':'), "user");
    assert!(contains("UNIQUE constraint failed: servers.url", "servers.url"));
    assert!(contains("abc", ""));
    assert!(!contains("ab", "abc"));
    assert!(contains("aab", "ab"));
    assert!(str_eq("é", "é"));
    assert!(!str_eq("e", "é"));
}

#[test]
fn only_ascii_letters_are_compared_without_case() {
    assert!(eq_ignore_ascii_case("Videos", "vIDEOS"));
    assert!(!eq_ignore_ascii_case("É", "é"));
    assert!(!eq_ignore_ascii_case("a", "ab"));
    assert!(!eq_ignore_ascii_case("[", "{"));
}

#[test]
fn times_are_compared_second_by_second() {
    let time = Timestamp::from_parts(-2, 250);
    assert_eq!((time.secs, time.subsec_nanos), (-2, 250));
    assert!(Timestamp::from_parts(-2, 251).lies_after(time));
    assert!(Timestamp::from_parts(-1, 0).lies_after(time));
    assert!(!time.lies_after(time));
    assert!(!Timestamp::from_parts(-3, 999_999_999).lies_after(time));
    let now = Timestamp::now();
    assert!(now.lies_after(Timestamp::from_parts(1_577_836_800, 0)));
    assert!(now.subsec_nanos < 1_000_000_000);
}

#[test]
fn milliseconds_are_added_as_dates_are() {
    // The last of these parts lie in a leap second.
    let seconds = [59, -1, 119, 1_483_228_799];
    let parts = [0, 1, 400_000_000, 999_999_999, 1_000_000_000, 1_500_000_000, 1_999_999_999];
    for secs in seconds {
        for nanos in parts {
            let date = chrono::DateTime::from_timestamp(secs, nanos).unwrap();
            for millis in [0, 1, 499, 500, 501, 600, 1_000, 1_500, 2_000, 86_400_001] {
                let later = date + chrono::Duration::milliseconds(millis);
                let time = Timestamp::from_parts(secs, nanos).plus_milliseconds(millis);
                assert_eq!(time.secs, later.timestamp());
                assert_eq!(time.subsec_nanos, later.timestamp_subsec_nanos());
                assert!(!Timestamp::from_parts(secs, nanos).lies_after(time));
            }
        }
    }
}

#[test]
fn dates_span_the_years_of_the_calendar() {
    assert_eq!(chrono::DateTime::<chrono::Utc>::MIN_UTC.timestamp(), EARLIEST_SECOND);
    assert_eq!(chrono::DateTime::<chrono::Utc>::MAX_UTC.timestamp(), LATEST_SECOND);
}
