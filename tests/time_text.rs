use eva_rt_common::time_text::{encode_time_text, is_white_space, TimeParseError, TimeText};
use eva_rt_common::units::{TimeUnit, MICRO_TO_NANO, MILLI_TO_NANO, SECS_TO_NANO};

fn decode(s: &str) -> Result<f64, TimeParseError> {
    let text = TimeText::split(s)?;
    let number = text.number.parse::<f64>();
    let scale = text.scale(number.is_ok())?;
    Ok(number.unwrap() * scale as f64)
}

#[test]
fn malformed_number() {
    assert_eq!(decode("abc"), Err(TimeParseError::MalformedNumber));
}

#[test]
fn unknown_unit() {
    assert_eq!(decode("5 foo"), Err(TimeParseError::UnknownUnit));
}

#[test]
fn malformed_format() {
    assert!(matches!(TimeText::split("5 ms extra"), Err(TimeParseError::MalformedFormat)));
    assert_eq!(decode("5 ms extra"), Err(TimeParseError::MalformedFormat));
}

#[test]
fn empty_text_is_malformed_format() {
    assert!(matches!(TimeText::split(""), Err(TimeParseError::MalformedFormat)));
    assert!(matches!(TimeText::split("  \t "), Err(TimeParseError::MalformedFormat)));
}

#[test]
fn number_is_judged_before_unit() {
    assert_eq!(decode("abc foo"), Err(TimeParseError::MalformedNumber));
}

#[test]
fn split_trims_and_splits_on_white_space() {
    let text = TimeText::split("  5\tms \n").ok().unwrap();
    assert_eq!(text.number, "5");
    assert_eq!(text.unit, Some("ms".to_string()));
}

#[test]
fn split_single_token() {
    let text = TimeText::split(" 12.5 ").ok().unwrap();
    assert_eq!(text.number, "12.5");
    assert_eq!(text.unit, None);
}

#[test]
fn split_on_unicode_white_space() {
    let text = TimeText::split("7\u{3000}us").ok().unwrap();
    assert_eq!(text.number, "7");
    assert_eq!(text.unit, Some("us".to_string()));
}

#[test]
fn scale_of_each_unit() {
    assert_eq!(decode("2 s"), Ok(2e9));
    assert_eq!(decode("2 ms"), Ok(2e6));
    assert_eq!(decode("2 us"), Ok(2e3));
    assert_eq!(decode("2 ns"), Ok(2.0));
    assert_eq!(decode("2"), Ok(2.0));
}

#[test]
fn millis_equal_million_nanos() {
    assert_eq!(decode("1 ms"), decode("1000000 ns"));
}

#[test]
fn encode_appends_ns() {
    assert_eq!(encode_time_text("1500"), "1500 ns");
    assert_eq!(encode_time_text("-0.25"), "-0.25 ns");
}

#[test]
fn encoded_duration_round_trips() {
    for x in [0.0f64, 1.0, 1234.5, -7.25, 1e12, 123456789.125] {
        let text = encode_time_text(&format!("{}", x));
        assert_eq!(decode(&text), Ok(x));
    }
}

#[test]
fn units_from_suffix() {
    assert_eq!(TimeUnit::from_suffix("s"), Some(TimeUnit::Secs));
    assert_eq!(TimeUnit::from_suffix("ms"), Some(TimeUnit::Millis));
    assert_eq!(TimeUnit::from_suffix("us"), Some(TimeUnit::Micros));
    assert_eq!(TimeUnit::from_suffix("ns"), Some(TimeUnit::Nanos));
    assert_eq!(TimeUnit::from_suffix("ks"), None);
    assert_eq!(TimeUnit::from_suffix("sec"), None);
    assert_eq!(TimeUnit::from_suffix(""), None);
}

#[test]
fn nanos_per_unit_values() {
    assert_eq!(TimeUnit::Secs.nanos_per_unit(), SECS_TO_NANO);
    assert_eq!(TimeUnit::Millis.nanos_per_unit(), MILLI_TO_NANO);
    assert_eq!(TimeUnit::Micros.nanos_per_unit(), MICRO_TO_NANO);
    assert_eq!(TimeUnit::Nanos.nanos_per_unit(), 1);
    assert_eq!(SECS_TO_NANO, 1_000_000_000);
    assert_eq!(MILLI_TO_NANO, 1_000_000);
    assert_eq!(MICRO_TO_NANO, 1_000);
}

#[test]
fn white_space_characters() {
    assert!(is_white_space(' '));
    assert!(is_white_space('\t'));
    assert!(is_white_space('\u{A0}'));
    assert!(!is_white_space('x'));
    assert!(!is_white_space('\u{200B}'));
    for c in ['\n', '\r', '\u{85}', '\u{2028}', '5', 'm'] {
        assert_eq!(is_white_space(c), c.is_whitespace());
    }
}
