//! Exception vectors of the 68k: their names, and how the command line gives them.

use vstd::prelude::*;
use crate::hexnum::{
    all_hex, hex_exceeds, hex_number, hex_value, is_hex_digit, lemma_digits_are_number,
    lemma_hex_text_reads_back, lemma_trimmed_0x, lemma_trimmed_dollar, read_hex, skip_copies,
    HexError,
};
use crate::text::{
    chars_of, hex_text, law_trimming, lemma_occurrences_upto, occurrences, occurrences_upto,
    trimmed,
};

verus! {

/// The name of the exception whose vector stands at address `vector`.
pub open spec fn vector_label(vector: u32) -> Seq<char> {
    if vector == 0x08 {
        "bus error"@
    } else if vector == 0x0C {
        "address error"@
    } else if vector == 0x10 {
        "illegal instruction"@
    } else if vector == 0x14 {
        "zero divide"@
    } else if vector == 0x18 {
        "CHK"@
    } else if vector == 0x1C {
        "TRAPV"@
    } else if vector == 0x20 {
        "privilege violation"@
    } else if vector == 0x24 {
        "trace"@
    } else if vector == 0x28 {
        "line-A"@
    } else if vector == 0x2C {
        "line-F"@
    } else if vector == 0x38 {
        "format error"@
    } else if vector == 0x60 {
        "spurious interrupt"@
    } else if 0x64 <= vector <= 0x7C {
        "autovector interrupt"@
    } else if 0x80 <= vector <= 0xBC {
        "TRAP #n"@
    } else {
        "other"@
    }
}

/// Names the common 68k exception vectors (by vector address).
pub fn vector_name(vector: u32) -> (name: &'static str)
    ensures
        name@ == vector_label(vector),
{
    match vector {
        0x08 => "bus error",
        0x0C => "address error",
        0x10 => "illegal instruction",
        0x14 => "zero divide",
        0x18 => "CHK",
        0x1C => "TRAPV",
        0x20 => "privilege violation",
        0x24 => "trace",
        0x28 => "line-A",
        0x2C => "line-F",
        0x38 => "format error",
        0x60 => "spurious interrupt",
        0x64..=0x7C => "autovector interrupt",
        0x80..=0xBC => "TRAP #n",
        _ => "other",
    }
}

/// What `text` gives as a vector address: hexadecimal digits, behind any number of `0x`
/// and then any number of dollar signs.
pub open spec fn vector_address(text: Seq<char>) -> Result<nat, HexError> {
    hex_number(trimmed(trimmed(text, "0x"@), "$"@), 0xFFFF_FFFF)
}

/// Reads the address of an exception vector.
pub fn parse_vector(text: &str) -> (r: Result<u32, HexError>)
    ensures
        match vector_address(text@) {
            Ok(v) => r == Ok::<u32, HexError>(v as u32) && v <= u32::MAX,
            Err(e) => r == Err::<u32, HexError>(e),
        },
{
    let chars = chars_of(text);
    assert(chars@.skip(0) =~= text@);
    proof {
        reveal_strlit("0x");
        reveal_strlit("$");
    }
    let digits = skip_copies(&chars, 0, &chars_of("0x"));
    let digits = skip_copies(&chars, digits, &chars_of("$"));
    read_hex(&chars, digits, 0xFFFF_FFFF)
}

/// Every vector address reads back from its hexadecimal form of any width, alone, behind
/// `0x` and behind a dollar sign.
pub proof fn law_vector_reads_back(vector: u32, width: nat)
    ensures
        vector_address(hex_text(vector as nat, width)) == Ok::<nat, HexError>(vector as nat),
        vector_address("0x"@ + hex_text(vector as nat, width)) == Ok::<nat, HexError>(
            vector as nat,
        ),
        vector_address("$"@ + hex_text(vector as nat, width)) == Ok::<nat, HexError>(
            vector as nat,
        ),
{
    let s = hex_text(vector as nat, width);
    lemma_hex_text_reads_back(vector as nat, width);
    lemma_trimmed_0x(s);
    lemma_trimmed_dollar(s);
    lemma_digits_are_number(s, 0xFFFF_FFFF);
    let t = "$"@ + s;
    assert(trimmed(t, "0x"@) == t) by {
        reveal_strlit("0x");
        reveal_strlit("$");
        assert(t[0] == '$');
        if "0x"@.is_prefix_of(t) {
            assert(t.subrange(0, 2)[0] == t[0]);
        }
    }
}

/// No name of a vector breaks the line.
pub proof fn lemma_label_is_one_line(vector: u32)
    ensures
        occurrences(vector_label(vector), '\n') == 0,
{
    reveal_strlit("bus error");
    reveal_strlit("address error");
    reveal_strlit("illegal instruction");
    reveal_strlit("zero divide");
    reveal_strlit("CHK");
    reveal_strlit("TRAPV");
    reveal_strlit("privilege violation");
    reveal_strlit("trace");
    reveal_strlit("line-A");
    reveal_strlit("line-F");
    reveal_strlit("format error");
    reveal_strlit("spurious interrupt");
    reveal_strlit("autovector interrupt");
    reveal_strlit("TRAP #n");
    reveal_strlit("other");
    lemma_occurrences_upto("bus error"@, '\n', 9);
    assert("bus error"@.take(9) =~= "bus error"@);
    lemma_occurrences_upto("address error"@, '\n', 13);
    assert("address error"@.take(13) =~= "address error"@);
    lemma_occurrences_upto("illegal instruction"@, '\n', 19);
    assert("illegal instruction"@.take(19) =~= "illegal instruction"@);
    lemma_occurrences_upto("zero divide"@, '\n', 11);
    assert("zero divide"@.take(11) =~= "zero divide"@);
    lemma_occurrences_upto("CHK"@, '\n', 3);
    assert("CHK"@.take(3) =~= "CHK"@);
    lemma_occurrences_upto("TRAPV"@, '\n', 5);
    assert("TRAPV"@.take(5) =~= "TRAPV"@);
    lemma_occurrences_upto("privilege violation"@, '\n', 19);
    assert("privilege violation"@.take(19) =~= "privilege violation"@);
    lemma_occurrences_upto("trace"@, '\n', 5);
    assert("trace"@.take(5) =~= "trace"@);
    lemma_occurrences_upto("line-A"@, '\n', 6);
    assert("line-A"@.take(6) =~= "line-A"@);
    lemma_occurrences_upto("line-F"@, '\n', 6);
    assert("line-F"@.take(6) =~= "line-F"@);
    lemma_occurrences_upto("format error"@, '\n', 12);
    assert("format error"@.take(12) =~= "format error"@);
    lemma_occurrences_upto("spurious interrupt"@, '\n', 18);
    assert("spurious interrupt"@.take(18) =~= "spurious interrupt"@);
    lemma_occurrences_upto("autovector interrupt"@, '\n', 20);
    assert("autovector interrupt"@.take(20) =~= "autovector interrupt"@);
    lemma_occurrences_upto("TRAP #n"@, '\n', 7);
    assert("TRAP #n"@.take(7) =~= "TRAP #n"@);
    lemma_occurrences_upto("other"@, '\n', 5);
    assert("other"@.take(5) =~= "other"@);
    reveal_with_fuel(occurrences_upto, 21);
}

/// Whatever `parse_vector` gives for the hexadecimal form of an address, of any width, alone,
/// behind `0x` or behind a dollar sign, is that address.
pub proof fn law_parsed_vector_is_the_one_given(
    text: &str,
    vector: u32,
    width: nat,
    r: Result<u32, HexError>,
)
    requires
        call_ensures(parse_vector, (text,), r),
        ({
            let digits = hex_text(vector as nat, width);
            text@ == digits || text@ == "0x"@ + digits || text@ == "$"@ + digits
        }),
    ensures
        r == Ok::<u32, HexError>(vector),
{
    law_vector_reads_back(vector, width);
}

/// A vector address may stand behind any number of `0x`, and then of dollar signs. A dollar sign
/// before `0x` spoils it. What stands behind them is read as a number of 32 bits.
pub proof fn law_vector_prefixes(text: Seq<char>)
    ensures
        vector_address("0x"@ + text) == vector_address(text),
        !"0x"@.is_prefix_of(text) ==> vector_address("$"@ + text) == vector_address(text),
        "0x"@.is_prefix_of(text) ==> vector_address("$"@ + text) == Err::<nat, HexError>(
            HexError::InvalidDigit,
        ),
        !"0x"@.is_prefix_of(text) && !"$"@.is_prefix_of(text) ==> vector_address(text)
            == hex_number(text, u32::MAX as nat),
        vector_address(text) matches Ok(v) ==> v <= u32::MAX,
{
    reveal_strlit("0x");
    reveal_strlit("$");
    law_trimming(text, "0x"@);
    law_trimming(text, "$"@);
    let t = "$"@ + text;
    assert(trimmed(t, "0x"@) == t) by {
        assert(t[0] == '$');
        if "0x"@.is_prefix_of(t) {
            assert(t.subrange(0, 2)[0] == t[0]);
        }
    }
    if "0x"@.is_prefix_of(text) {
        assert(text.subrange(0, 2)[0] == text[0]);
        assert(text.subrange(0, 2)[1] == text[1]);
        assert(text[0] == '0' && text[1] == 'x');
        if "$"@.is_prefix_of(text) {
            assert(text.subrange(0, 1)[0] == text[0]);
        }
        assert(!is_hex_digit(text[1]));
        assert(!all_hex(text));
        assert forall|k: int|
            0 <= k <= text.len() && #[trigger] all_hex(text.take(k)) implies hex_value(
            text.take(k),
        ) == 0 by {
            if k >= 2 {
                assert(text.take(k)[1] == 'x');
            } else {
                reveal_with_fuel(hex_value, 2);
                assert(k == 1 ==> text.take(k).last() == '0');
            }
        }
        assert(!hex_exceeds(text, 0xFFFF_FFFF));
    }
}

/// Which vectors bear which name, by their addresses. Every name but that of no common vector
/// stands for one vector or for one range.
pub proof fn law_name_tells_the_vector(vector: u32, name: &'static str)
    requires
        call_ensures(vector_name, (vector,), name),
    ensures
        name@ == "bus error"@ <==> vector == 0x08,
        name@ == "address error"@ <==> vector == 0x0C,
        name@ == "illegal instruction"@ <==> vector == 0x10,
        name@ == "zero divide"@ <==> vector == 0x14,
        name@ == "CHK"@ <==> vector == 0x18,
        name@ == "TRAPV"@ <==> vector == 0x1C,
        name@ == "privilege violation"@ <==> vector == 0x20,
        name@ == "trace"@ <==> vector == 0x24,
        name@ == "line-A"@ <==> vector == 0x28,
        name@ == "line-F"@ <==> vector == 0x2C,
        name@ == "format error"@ <==> vector == 0x38,
        name@ == "spurious interrupt"@ <==> vector == 0x60,
        name@ == "autovector interrupt"@ <==> 0x64 <= vector <= 0x7C,
        name@ == "TRAP #n"@ <==> 0x80 <= vector <= 0xBC,
        name@ == "other"@ <==> {
            ||| vector < 0x08
            ||| vector > 0xBC
            ||| vector < 0x30 && vector % 4 != 0
            ||| 0x2C < vector < 0x60 && vector != 0x38
            ||| 0x60 < vector < 0x64
            ||| 0x7C < vector < 0x80
        },
        name@ == vector_label(vector),
{
    reveal_strlit("bus error");
    reveal_strlit("address error");
    reveal_strlit("illegal instruction");
    reveal_strlit("zero divide");
    reveal_strlit("CHK");
    reveal_strlit("TRAPV");
    reveal_strlit("privilege violation");
    reveal_strlit("trace");
    reveal_strlit("line-A");
    reveal_strlit("line-F");
    reveal_strlit("format error");
    reveal_strlit("spurious interrupt");
    reveal_strlit("autovector interrupt");
    reveal_strlit("TRAP #n");
    reveal_strlit("other");
    assert(name@ == vector_label(vector));
    assert("illegal instruction"@[0] == 'i' && "privilege violation"@[0] == 'p');
    assert("TRAPV"@[0] == 'T' && "trace"@[0] == 't' && "other"@[0] == 'o');
    assert("line-A"@[5] == 'A' && "line-F"@[5] == 'F');
}

} // verus!
