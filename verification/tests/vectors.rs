use snowrun::hexnum::HexError;
use snowrun::vectors::{parse_vector, vector_name};

#[test]
fn vectors_have_their_names() {
    assert_eq!(vector_name(0x08), "bus error");
    assert_eq!(vector_name(0x0C), "address error");
    assert_eq!(vector_name(0x10), "illegal instruction");
    assert_eq!(vector_name(0x14), "zero divide");
    assert_eq!(vector_name(0x18), "CHK");
    assert_eq!(vector_name(0x1C), "TRAPV");
    assert_eq!(vector_name(0x20), "privilege violation");
    assert_eq!(vector_name(0x24), "trace");
    assert_eq!(vector_name(0x28), "line-A");
    assert_eq!(vector_name(0x2C), "line-F");
    assert_eq!(vector_name(0x38), "format error");
    assert_eq!(vector_name(0x60), "spurious interrupt");
}

#[test]
fn vector_ranges_end_where_they_should() {
    assert_eq!(vector_name(0x63), "other");
    assert_eq!(vector_name(0x64), "autovector interrupt");
    assert_eq!(vector_name(0x7C), "autovector interrupt");
    assert_eq!(vector_name(0x7D), "other");
    assert_eq!(vector_name(0x80), "TRAP #n");
    assert_eq!(vector_name(0xBC), "TRAP #n");
    assert_eq!(vector_name(0xBD), "other");
    assert_eq!(vector_name(0), "other");
}

#[test]
fn vector_addresses_are_read() {
    assert_eq!(parse_vector("0x10"), Ok(0x10));
    assert_eq!(parse_vector("0x0C"), Ok(0x0C));
    assert_eq!(parse_vector("$0c"), Ok(0x0C));
    assert_eq!(parse_vector("0x0x$$2C"), Ok(0x2C));
    assert_eq!(parse_vector("+64"), Ok(0x64));
    assert_eq!(parse_vector("FFFFFFFF"), Ok(0xFFFF_FFFF));
    assert_eq!(parse_vector("000000000000010"), Ok(0x10));
}

#[test]
fn bad_vector_addresses_are_refused() {
    assert_eq!(parse_vector(""), Err(HexError::Empty));
    assert_eq!(parse_vector("0x"), Err(HexError::Empty));
    assert_eq!(parse_vector("$0x10"), Err(HexError::InvalidDigit));
    assert_eq!(parse_vector("0X10"), Err(HexError::InvalidDigit));
    assert_eq!(parse_vector("+"), Err(HexError::InvalidDigit));
    assert_eq!(parse_vector("-1"), Err(HexError::InvalidDigit));
    assert_eq!(parse_vector("10 "), Err(HexError::InvalidDigit));
    assert_eq!(parse_vector("100000000"), Err(HexError::Overflow));
    assert_eq!(parse_vector("100000000z"), Err(HexError::Overflow));
    assert_eq!(parse_vector("10000000z0"), Err(HexError::InvalidDigit));
}

#[test]
fn reading_agrees_with_the_standard_library() {
    let texts = [
        "", "+", "-", "0", "+0", "-0", "ff", "FF", "fF", "g", "1_0", " 1", "1 ", "é",
        "FFFFFFFF", "100000000", "0000000000001", "FFFFFFFFg", "FFFFFFFFFg", "++1",
    ];
    for text in texts {
        let ours = parse_vector(text);
        let theirs = u32::from_str_radix(text, 16);
        match (ours, theirs) {
            (Ok(a), Ok(b)) => assert_eq!(a, b),
            (Err(HexError::Empty), Err(e)) => {
                assert_eq!(*e.kind(), std::num::IntErrorKind::Empty)
            }
            (Err(HexError::InvalidDigit), Err(e)) => {
                assert_eq!(*e.kind(), std::num::IntErrorKind::InvalidDigit)
            }
            (Err(HexError::Overflow), Err(e)) => {
                assert_eq!(*e.kind(), std::num::IntErrorKind::PosOverflow)
            }
            (a, b) => panic!("{text}: {a:?} against {b:?}"),
        }
    }
}
