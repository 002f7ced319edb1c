use snowrun::text::{chars_of, lower_chars, push_dec, push_hex, spells};

fn hex(v: u64, width: usize) -> String {
    let mut out = String::new();
    push_hex(&mut out, v, width);
    out
}

fn dec(v: u64) -> String {
    let mut out = String::new();
    push_dec(&mut out, v);
    out
}

#[test]
fn hexadecimal_is_padded_to_its_width() {
    for v in [0, 1, 9, 10, 15, 16, 255, 256, 0xABCD, 0xFFFF_FFFF, u64::MAX] {
        assert_eq!(hex(v, 0), format!("{v:X}"));
        assert_eq!(hex(v, 3), format!("{v:03X}"));
        assert_eq!(hex(v, 8), format!("{v:08X}"));
        assert_eq!(hex(v, 20), format!("{v:020X}"));
    }
}

#[test]
fn decimal_has_no_padding() {
    for v in [0, 9, 10, 99, 100, 12_345, u64::MAX] {
        assert_eq!(dec(v), format!("{v}"));
    }
}

#[test]
fn only_ascii_letters_are_lowered() {
    let low: String = lower_chars("AbZ[@É9").into_iter().collect();
    assert_eq!(low, "AbZ[@É9".to_ascii_lowercase());
}

#[test]
fn characters_are_listed_and_spelled() {
    assert_eq!(chars_of("aé"), vec!['a', 'é']);
    assert!(spells(&vec!['o', 'k'], "ok"));
    assert!(!spells(&vec!['o', 'k'], "okay"));
    assert!(!spells(&vec!['o', 'k'], "on"));
}
