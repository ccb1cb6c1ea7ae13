use aspeak::degree::{validate_style_degree, StyleDegree};
use aspeak::error::ValidationError;
use aspeak::options::{OptionFields, OptionValue, Role, TextOptions};
use aspeak::prosody::{parse_pitch, parse_rate};

fn degree(v: f32) -> StyleDegree {
    StyleDegree::parse(&v.to_string()).unwrap()
}

fn with_degree(d: StyleDegree) -> OptionFields {
    OptionFields {
        text: Some("t".to_string()),
        voice: None,
        locale: None,
        style: None,
        role: None,
        style_degree: Some(d),
        pitch: None,
        rate: None,
    }
}

fn trimmed(s: &str) -> bool {
    !s.is_empty() && s.trim() == s
}

#[test]
fn style_degree_bounds_are_inclusive() {
    assert!(!validate_style_degree(StyleDegree::new(false, 0, 0)));
    assert!(!validate_style_degree(StyleDegree::new(false, 9, 3)));
    assert!(!validate_style_degree(StyleDegree::new(false, 20001, 4)));
    assert!(validate_style_degree(StyleDegree::new(false, 1, 2)));
    assert!(validate_style_degree(StyleDegree::new(false, 2, 0)));
    assert!(validate_style_degree(StyleDegree::new(false, 20, 1)));
    assert!(!validate_style_degree(StyleDegree::new(true, 1, 0)));
}

#[test]
fn style_degree_bounds_from_floats() {
    assert!(!validate_style_degree(degree(0.0)));
    assert!(!validate_style_degree(degree(0.009)));
    assert!(!validate_style_degree(degree(2.0001)));
    assert!(validate_style_degree(degree(0.01)));
    assert!(validate_style_degree(degree(2.0)));
    assert!(validate_style_degree(degree(1.5)));
}

#[test]
fn style_degree_out_of_range_fails_construction() {
    let r = TextOptions::from_fields(with_degree(degree(2.5)));
    match r {
        Err(e) => {
            assert!(matches!(e, ValidationError::StyleDegreeOutOfRange));
            assert!(e.message().contains("[0.01, 2]"));
            assert_eq!(e.field(), "style_degree");
        }
        Ok(_) => panic!("2.5 must be rejected"),
    }
}

#[test]
fn style_degree_text() {
    assert_eq!(StyleDegree::new(false, 1, 2).to_text(), "0.01");
    assert_eq!(StyleDegree::new(false, 2, 0).to_text(), "2");
    assert_eq!(StyleDegree::new(false, 15, 1).to_text(), "1.5");
    assert_eq!(StyleDegree::new(true, 5, 1).to_text(), "-0.5");
    assert_eq!(StyleDegree::new(false, 100, 2).to_text(), "1.00");
    assert_eq!(StyleDegree::new(false, 0, 0).to_text(), "0");
}

#[test]
fn style_degree_parse() {
    let d = StyleDegree::parse("1.25").unwrap();
    assert_eq!((d.negative, d.mantissa, d.scale), (false, 125, 2));
    let d = StyleDegree::parse("-0.5").unwrap();
    assert_eq!((d.negative, d.mantissa, d.scale), (true, 5, 1));
    let d = StyleDegree::parse("+2").unwrap();
    assert_eq!((d.negative, d.mantissa, d.scale), (false, 2, 0));
    assert!(StyleDegree::parse("NaN").is_none());
    assert!(StyleDegree::parse("1.").is_none());
    assert!(StyleDegree::parse("").is_none());
    assert!(StyleDegree::parse("99999999999999999999").is_none());
    let d = StyleDegree::parse("18446744073709551615").unwrap();
    assert_eq!(d.mantissa, u64::MAX);
    for v in [0.01f32, 0.5, 1.5, 2.0, 0.333] {
        assert_eq!(degree(v).to_text(), v.to_string());
    }
}

#[test]
fn pitch_values_kept_as_given() {
    for s in ["+10Hz", "-2.5Hz", "-20%", "15%", "+3st", "-1.5st", "default", "x-low", "low", "medium", "high", "x-high"] {
        let p = parse_pitch(s).unwrap();
        assert_eq!(p, s);
        assert!(trimmed(&p));
    }
}

#[test]
fn pitch_fractions_become_percentages() {
    assert_eq!(parse_pitch("0.2").unwrap(), "20.00%");
    assert_eq!(parse_pitch("-0.12345").unwrap(), "-12.34%");
    assert_eq!(parse_pitch("1").unwrap(), "100.00%");
    assert_eq!(parse_pitch("+0.5").unwrap(), "50.00%");
    assert_eq!(parse_pitch("0").unwrap(), "0.00%");
    assert_eq!(parse_pitch("007.5").unwrap(), "750.00%");
    assert!(trimmed(&parse_pitch("0.2").unwrap()));
}

#[test]
fn pitch_rejects_other_text() {
    for s in ["3st", "abc", "", " high", "high ", "1.Hz", ".5", "+", "10 Hz", "Hz"] {
        match parse_pitch(s) {
            Err(ValidationError::InvalidPitch(t)) => assert_eq!(t, s),
            other => panic!("{s:?} gave {other:?}"),
        }
    }
    let e = parse_pitch("abc").unwrap_err();
    assert_eq!(e.field(), "pitch");
    assert!(e.message().contains("abc"));
}

#[test]
fn rate_values() {
    for s in ["-20%", "default", "x-slow", "slow", "medium", "fast", "x-fast"] {
        assert_eq!(parse_rate(s).unwrap(), s);
    }
    assert_eq!(parse_rate("1.5f").unwrap(), "1.5");
    assert_eq!(parse_rate("0.5").unwrap(), "50.00%");
    assert_eq!(parse_rate("-0.25").unwrap(), "-25.00%");
    for s in ["fastest", "1.5ff", "+10Hz", "", "f"] {
        match parse_rate(s) {
            Err(ValidationError::InvalidRate(t)) => assert_eq!(t, s),
            other => panic!("{s:?} gave {other:?}"),
        }
    }
    for s in ["1.5f", "0.5", "slow", "10%"] {
        assert!(trimmed(&parse_rate(s).unwrap()));
    }
}

#[test]
fn invalid_pitch_comes_before_invalid_rate() {
    let mut f = with_degree(StyleDegree::new(false, 3, 0));
    f.pitch = Some("bad".to_string());
    f.rate = Some("bad".to_string());
    assert!(matches!(TextOptions::from_fields(f), Err(ValidationError::InvalidPitch(_))));
}

#[test]
fn fields_are_stored_in_canonical_form() {
    let mut f = with_degree(StyleDegree::new(false, 1, 0));
    f.pitch = Some("0.1".to_string());
    f.rate = Some("2f".to_string());
    f.role = Some(Role::YoungAdultFemale);
    f.locale = Some("en-US".to_string());
    let o = TextOptions::from_fields(f).unwrap();
    assert_eq!(o.pitch().as_deref(), Some("10.00%"));
    assert_eq!(o.rate().as_deref(), Some("2"));
    assert_eq!(o.role(), Some(Role::YoungAdultFemale));
    assert_eq!(o.locale().as_deref(), Some("en-US"));
    assert_eq!(o.text().as_deref(), Some("t"));
    assert!(o.voice().is_none());
    assert!(o.style().is_none());
    assert_eq!(o.style_degree().unwrap().mantissa, 1);
    assert_eq!(Role::OlderAdultMale.as_str(), "OlderAdultMale");
}

fn entry(k: &str, v: OptionValue) -> (String, OptionValue) {
    (k.to_string(), v)
}

fn text(s: &str) -> OptionValue {
    OptionValue::Text(s.to_string())
}

#[test]
fn keyed_construction_applies_the_same_rules() {
    let kwargs = vec![
        entry("text", text("Hello")),
        entry("pitch", text("0.2")),
        entry("unknown", text("ignored")),
        entry("role", OptionValue::Role(Role::Boy)),
        entry("style_degree", OptionValue::Number(StyleDegree::new(false, 15, 1))),
        entry("voice", text("v1")),
        entry("voice", text("v2")),
    ];
    let o = TextOptions::new(&kwargs).unwrap();
    assert_eq!(o.text().as_deref(), Some("Hello"));
    assert_eq!(o.pitch().as_deref(), Some("20.00%"));
    assert_eq!(o.voice().as_deref(), Some("v1"));
    assert_eq!(o.role(), Some(Role::Boy));
    assert!(o.rate().is_none());
    assert!(TextOptions::new(&Vec::new()).unwrap().text().is_none());
}

#[test]
fn keyed_construction_rejects_values_of_the_wrong_kind() {
    let kwargs = vec![entry("style_degree", text("high"))];
    match TextOptions::new(&kwargs) {
        Err(e) => {
            assert!(matches!(&e, ValidationError::WrongType(f) if f == "style_degree"));
            assert_eq!(e.field(), "style_degree");
            assert_eq!(e.message(), "Wrong type of value for style_degree");
        }
        Ok(_) => panic!("a text style degree must be rejected"),
    }
    let kwargs = vec![entry("voice", OptionValue::Role(Role::Girl))];
    assert!(matches!(TextOptions::new(&kwargs), Err(ValidationError::WrongType(f)) if f == "voice"));
}

#[test]
fn keyed_construction_rejects_out_of_range_degree() {
    let kwargs = vec![entry("style_degree", OptionValue::Number(degree(2.5)))];
    let e = TextOptions::new(&kwargs).unwrap_err();
    assert!(matches!(e, ValidationError::StyleDegreeOutOfRange));
    assert_eq!(e.message(), "Style degree out of range [0.01, 2]");
    let kwargs = vec![entry("rate", text("zippy"))];
    let e = TextOptions::new(&kwargs).unwrap_err();
    assert_eq!(e.field(), "rate");
    assert!(e.message().starts_with("Invalid rate `zippy`"));
}
