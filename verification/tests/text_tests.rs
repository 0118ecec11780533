use alpha_tak::analysis::{add_setting, game_settings};
use alpha_tak::clock::{seconds_since_epoch, sys_time};
use std::time::{Duration, SystemTime, UNIX_EPOCH};
use alpha_tak::text::{is_float_text, parse_integer, push_decimal, same_text, split_char};

#[test]
fn parses_integers_like_str_parse() {
    assert_eq!(parse_integer("+12", -128, 127), Some(12));
    assert_eq!(parse_integer("-128", -128, 127), Some(-128));
    assert_eq!(parse_integer("128", -128, 127), None);
    assert_eq!(parse_integer("-0", 0, 255), None);
    assert_eq!(parse_integer("007", 0, 255), Some(7));
    assert_eq!(parse_integer("", 0, 255), None);
    assert_eq!(parse_integer("+", 0, 255), None);
    assert_eq!(parse_integer("1 ", 0, 255), None);
    assert_eq!(parse_integer("99999999999999999999999", 0, 255), None);
    for s in ["0", "7", "-7", "+7", "255", "256", "-129", "x"] {
        assert_eq!(parse_integer(s, -128, 127), s.parse::<i8>().ok().map(|v| v as i128));
        assert_eq!(parse_integer(s, 0, 255), s.parse::<u8>().ok().map(|v| v as i128));
    }
}

#[test]
fn compares_text() {
    assert!(same_text("Komi", "Komi"));
    assert!(!same_text("Komi", "komi"));
    assert!(!same_text("Kom", "Komi"));
}

#[test]
fn splits_like_str_split() {
    for s in ["a;b;;c", "", ";", "abc;", "ünï;cödé"] {
        let expected: Vec<String> = s.split(';').map(|p| p.to_string()).collect();
        assert_eq!(split_char(s, ';'), expected);
    }
}

#[test]
fn writes_decimals() {
    for n in [0u64, 7, 10, 1234567890, u64::MAX] {
        let mut s = String::from("n=");
        push_decimal(&mut s, n);
        assert_eq!(s, format!("n={n}"));
    }
}

#[test]
fn settings_header() {
    assert_eq!(game_settings(5, 4), "[Size \"5\"]\n[Komi \"2\"]\n");
    assert_eq!(game_settings(6, 5), "[Size \"6\"]\n[Komi \"2.5\"]\n");
    assert_eq!(game_settings(6, -3), "[Size \"6\"]\n[Komi \"-1.5\"]\n");
    assert_eq!(game_settings(6, -1), "[Size \"6\"]\n[Komi \"0.5\"]\n");
    assert_eq!(game_settings(8, -128), "[Size \"8\"]\n[Komi \"-64\"]\n");
}

#[test]
fn adds_settings() {
    let mut s = game_settings(5, 0);
    add_setting(&mut s, "TPS", "x5/x5/x5/x5/x5 1 1");
    assert_eq!(s, "[Size \"5\"]\n[Komi \"0\"]\n[TPS \"x5/x5/x5/x5/x5 1 1\"]\n");
}

#[test]
fn clock_reads_after_the_epoch() {
    let t = sys_time().unwrap();
    assert!(t > 1_600_000_000);
}

#[test]
fn seconds_since_the_epoch() {
    let after = UNIX_EPOCH + Duration::from_millis(5_900);
    assert_eq!(seconds_since_epoch(after.duration_since(UNIX_EPOCH)), Some(5));
    assert_eq!(seconds_since_epoch(UNIX_EPOCH.duration_since(SystemTime::now())), None);
}

#[test]
fn float_text_reads_as_f32_parse_does() {
    let cases = [
        "0", "-0", "1", "-1", "+1", "0.5", ".5", "5.", "1e5", "1E5", "1.5e-3", "-2.5E+10", "inf",
        "-inf", "INF", "Infinity", "-infinity", "NaN", "nan", "+nan", "", "-", "+", ".", "e5", "1e",
        "1e+", "1.2.3", "1e5e3", "1E5e3", "abc", "1,5", " 1", "1 ", "infinit", "nana", "0x10", "1_0",
        "1.e5", "-.5e2", "--1", "+-1", "1e-", "ināf",
    ];
    for s in cases {
        assert_eq!(is_float_text(s), s.parse::<f32>().is_ok(), "{s:?}");
    }
}
