use snowrun::hexnum::HexError;
use snowrun::keys::{join_key, key_code, parse_key, split_key, KeyError};
use std::num::ParseFloatError;

fn press(spec: &str) -> Result<(f64, u8, f64), KeyError<ParseFloatError>> {
    parse_key(spec, |s: &str| s.parse::<f64>(), 0.1)
}

fn said(spec: &str) -> String {
    match press(spec) {
        Ok(p) => format!("{:?}", p),
        Err(e) => e.message(spec),
    }
}

#[test]
fn keypresses_are_parsed() {
    assert_eq!(press("12.5:return").unwrap(), (12.5, 0x24, 0.1));
    assert_eq!(press("3:0x24:2").unwrap(), (3.0, 0x24, 2.0));
    assert_eq!(press("0:7F:0.25").unwrap(), (0.0, 0x7F, 0.25));
    assert_eq!(press("-1:space:-2").unwrap(), (-1.0, 0x31, -2.0));
}

#[test]
fn surplus_fields_are_dropped() {
    assert_eq!(press("1:esc:2:anything:at all").unwrap(), (1.0, 0x35, 2.0));
}

#[test]
fn keys_have_their_names() {
    assert_eq!(key_code("return"), Ok(0x24));
    assert_eq!(key_code("enter"), Ok(0x4C));
    assert_eq!(key_code("shift"), Ok(0x38));
    assert_eq!(key_code("cmd"), Ok(0x37));
    assert_eq!(key_code("command"), Ok(0x37));
    assert_eq!(key_code("option"), Ok(0x3A));
    assert_eq!(key_code("space"), Ok(0x31));
    assert_eq!(key_code("esc"), Ok(0x35));
    assert_eq!(key_code("escape"), Ok(0x35));
}

#[test]
fn case_of_keys_is_ignored() {
    assert_eq!(key_code("ReTuRn"), Ok(0x24));
    assert_eq!(key_code("ESC"), Ok(0x35));
    assert_eq!(key_code("0X4c"), Ok(0x4C));
    assert_eq!(key_code("FF"), key_code("ff"));
}

#[test]
fn scancodes_read_back() {
    for code in 0..=255u8 {
        assert_eq!(key_code(&format!("0x{code:02X}")), Ok(code));
        assert_eq!(key_code(&format!("{code:x}")), Ok(code));
        assert_eq!(key_code(&format!("{code:06X}")), Ok(code));
    }
}

#[test]
fn bad_keys_are_refused() {
    assert_eq!(key_code(""), Err(HexError::Empty));
    assert_eq!(key_code("0x"), Err(HexError::Empty));
    assert_eq!(key_code("tab"), Err(HexError::InvalidDigit));
    assert_eq!(key_code("100"), Err(HexError::Overflow));
    assert_eq!(key_code("0x0x24"), Ok(0x24));
    assert_eq!(key_code("+24"), Ok(0x24));
}

#[test]
fn every_error_says_what_is_wrong() {
    assert_eq!(said("soon:return"), "--key 'soon:return': bad SECS");
    assert_eq!(said(""), "--key '': bad SECS");
    assert_eq!(said("1"), "--key '1': expected SECS:KEY");
    assert_eq!(said("1:Tab"), "--key '1:Tab': unknown key 'Tab'");
    assert_eq!(said("1::2"), "--key '1::2': unknown key ''");
    assert_eq!(said("1:return:long"), "--key '1:return:long': bad HOLD");
    assert_eq!(said("1:return:"), "--key '1:return:': bad HOLD");
}

#[test]
fn the_first_wrong_field_decides() {
    assert!(matches!(press("x"), Err(KeyError::BadSecs(_))));
    assert!(matches!(press("x:tab:y"), Err(KeyError::BadSecs(_))));
    assert!(matches!(
        press("1:tab:y"),
        Err(KeyError::UnknownKey(_, HexError::InvalidDigit))
    ));
}

#[test]
fn fields_stand_between_colons() {
    let f = split_key("a:b:c");
    assert_eq!((f.secs.as_str(), f.key.as_deref(), f.hold.as_deref()), ("a", Some("b"), Some("c")));
    let f = split_key("é:ü");
    assert_eq!((f.secs.as_str(), f.key.as_deref(), f.hold.as_deref()), ("é", Some("ü"), None));
    let f = split_key("");
    assert_eq!((f.secs.as_str(), f.key.as_deref(), f.hold.as_deref()), ("", None, None));
    let f = split_key(":::");
    assert_eq!((f.secs.as_str(), f.key.as_deref(), f.hold.as_deref()), ("", Some(""), Some("")));
}

#[test]
fn keypresses_are_joined_from_what_their_times_read_as() {
    let r: Result<(u8, u8, u8), KeyError<&str>> = join_key(Ok(1), Some("esc".to_string()), None, 9);
    assert!(matches!(r, Ok((1, 0x35, 9))));
    let r: Result<(u8, u8, u8), KeyError<&str>> =
        join_key(Ok(1), Some("esc".to_string()), Some(Err("no")), 9);
    assert!(matches!(r, Err(KeyError::BadHold("no"))));
    let r: Result<(u8, u8, u8), KeyError<&str>> = join_key(Ok(1), None, Some(Err("no")), 9);
    assert!(matches!(r, Err(KeyError::MissingKey)));
}

#[test]
fn number_errors_say_what_the_standard_library_says() {
    for text in ["", "z", "FFF"] {
        let theirs = u8::from_str_radix(text, 16).unwrap_err();
        let ours = key_code(text).unwrap_err();
        assert_eq!(ours.message(), theirs.to_string());
    }
}
