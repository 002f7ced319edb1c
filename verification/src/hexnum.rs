//! Hexadecimal numbers as the command line writes them.

use vstd::prelude::*;
use crate::text::{digit_char, hex_digits, hex_text, lower_char, lowered, trimmed, zeros};

verus! {

/// Why a text is no hexadecimal number.
#[derive(Clone, Copy, Debug, PartialEq, Eq, Structural)]
pub enum HexError {
    /// There is no text.
    Empty,
    /// A character is no digit, or there is no digit behind the sign.
    InvalidDigit,
    /// The number is too large.
    Overflow,
}

impl HexError {
    /// What to say of this error.
    pub open spec fn words(self) -> Seq<char> {
        match self {
            HexError::Empty => "cannot parse integer from empty string"@,
            HexError::InvalidDigit => "invalid digit found in string"@,
            HexError::Overflow => "number too large to fit in target type"@,
        }
    }

    /// Says what is wrong.
    pub fn message(&self) -> (text: &'static str)
        ensures
            text@ == self.words(),
    {
        match self {
            HexError::Empty => "cannot parse integer from empty string",
            HexError::InvalidDigit => "invalid digit found in string",
            HexError::Overflow => "number too large to fit in target type",
        }
    }
}

/// Whether `c` is a hexadecimal digit, in either case.
pub open spec fn is_hex_digit(c: char) -> bool {
    '0' <= c <= '9' || 'a' <= c <= 'f' || 'A' <= c <= 'F'
}

/// The value of the hexadecimal digit `c`.
pub open spec fn hex_digit_value(c: char) -> nat {
    if '0' <= c <= '9' {
        (c as int - '0' as int) as nat
    } else if 'a' <= c <= 'f' {
        (c as int - 'a' as int + 10) as nat
    } else if 'A' <= c <= 'F' {
        (c as int - 'A' as int + 10) as nat
    } else {
        0
    }
}

/// Whether `s` consists of hexadecimal digits.
pub open spec fn all_hex(s: Seq<char>) -> bool {
    forall|i: int| 0 <= i < s.len() ==> is_hex_digit(#[trigger] s[i])
}

/// The number that the digits `s` write.
pub open spec fn hex_value(s: Seq<char>) -> nat
    decreases s.len(),
{
    if s.len() == 0 {
        0
    } else {
        hex_value(s.drop_last()) * 16 + hex_digit_value(s.last())
    }
}

/// Whether some run of digits at the start of `s` already writes more than `max`.
pub open spec fn hex_exceeds(s: Seq<char>, max: nat) -> bool {
    exists|k: int|
        0 <= k <= s.len() && #[trigger] all_hex(s.take(k)) && hex_value(s.take(k)) > max
}

/// `s` without one plus sign at its start.
pub open spec fn unsigned_part(s: Seq<char>) -> Seq<char> {
    if s.len() > 0 && s[0] == '+' {
        s.skip(1)
    } else {
        s
    }
}

/// What `s` reads as: an optional plus sign, then one or more digits, for a number of
/// at most `max`. The first character that spoils it decides the error.
pub open spec fn hex_number(s: Seq<char>, max: nat) -> Result<nat, HexError> {
    let body = unsigned_part(s);
    if s.len() == 0 {
        Err(HexError::Empty)
    } else if body.len() > 0 && all_hex(body) && hex_value(body) <= max {
        Ok(hex_value(body))
    } else if hex_exceeds(body, max) {
        Err(HexError::Overflow)
    } else {
        Err(HexError::InvalidDigit)
    }
}

/// Reads the hexadecimal digit `c`.
fn read_digit(c: char) -> (d: Option<u64>)
    ensures
        d is Some <==> is_hex_digit(c),
        d matches Some(v) ==> v == hex_digit_value(c) && v < 16,
{
    if '0' <= c && c <= '9' {
        Some(c as u64 - '0' as u64)
    } else if 'a' <= c && c <= 'f' {
        Some(c as u64 - 'a' as u64 + 10)
    } else if 'A' <= c && c <= 'F' {
        Some(c as u64 - 'A' as u64 + 10)
    } else {
        None
    }
}

/// Reads the characters of `chars` from `from` on as a hexadecimal number of at most `max`.
pub fn read_hex(chars: &Vec<char>, from: usize, max: u32) -> (r: Result<u32, HexError>)
    requires
        from <= chars.len(),
    ensures
        match hex_number(chars@.skip(from as int), max as nat) {
            Ok(v) => r == Ok::<u32, HexError>(v as u32) && v <= max,
            Err(e) => r == Err::<u32, HexError>(e),
        },
{
    let ghost s = chars@.skip(from as int);
    let ghost body = unsigned_part(s);
    if from == chars.len() {
        return Err(HexError::Empty);
    }
    let start: usize = if chars[from] == '+' {
        from + 1
    } else {
        from
    };
    assert(body =~= chars@.skip(start as int));
    if start == chars.len() {
        assert(!hex_exceeds(body, max as nat)) by {
            assert forall|k: int| 0 <= k <= body.len() implies hex_value(
                #[trigger] body.take(k),
            ) <= max by {
                assert(body.take(k).len() == 0);
            }
        }
        return Err(HexError::InvalidDigit);
    }
    let mut value: u64 = 0;
    let mut i: usize = start;
    assert(body.take(0).len() == 0);
    while i < chars.len()
        invariant
            start <= i <= chars.len(),
            body == chars@.skip(start as int),
            all_hex(body.take(i - start)),
            value == hex_value(body.take(i - start)),
            value <= max,
            s.len() > 0,
            body.len() > 0,
            body == unsigned_part(s),
            s == chars@.skip(from as int),
            forall|k: int| 0 <= k <= i - start ==> hex_value(#[trigger] body.take(k)) <= max,
        decreases chars.len() - i,
    {
        let ghost done = i - start;
        let c = chars[i];
        assert(body.take(done + 1).drop_last() =~= body.take(done));
        assert(body.take(done + 1).last() == c);
        match read_digit(c) {
            None => {
                proof {
                    assert(body[done] == c);
                    assert(!all_hex(body));
                    assert forall|k: int|
                        0 <= k <= body.len() && #[trigger] all_hex(body.take(k)) implies hex_value(
                        body.take(k),
                    ) <= max by {
                        if k > done {
                            assert(body.take(k)[done] == c);
                        }
                    }
                    assert(!hex_exceeds(body, max as nat));
                }
                return Err(HexError::InvalidDigit);
            },
            Some(d) => {
                value = value * 16 + d;
                i = i + 1;
                assert(value == hex_value(body.take(done + 1)));
                assert(all_hex(body.take(done + 1))) by {
                    assert forall|j: int| 0 <= j < done + 1 implies is_hex_digit(
                        #[trigger] body.take(done + 1)[j],
                    ) by {
                        if j < done {
                            assert(body.take(done)[j] == body.take(done + 1)[j]);
                        }
                    }
                }
                if value > max as u64 {
                    proof {
                        if all_hex(body) {
                            lemma_prefix_value(body, done + 1);
                        }
                        assert(hex_exceeds(body, max as nat));
                    }
                    return Err(HexError::Overflow);
                }
            },
        }
    }
    assert(body.take(body.len() as int) =~= body);
    Ok(value as u32)
}

/// A run of digits writes at least what its start writes.
proof fn lemma_prefix_value(s: Seq<char>, k: int)
    requires
        0 <= k <= s.len(),
    ensures
        hex_value(s.take(k)) <= hex_value(s),
    decreases s.len(),
{
    if k == s.len() {
        assert(s.take(k) =~= s);
    } else {
        assert(s.drop_last().take(k) =~= s.take(k));
        lemma_prefix_value(s.drop_last(), k);
    }
}

/// Whether `prefix` stands in `chars` at `at`.
fn stands_at(chars: &Vec<char>, at: usize, prefix: &Vec<char>) -> (stands: bool)
    requires
        at <= chars.len(),
    ensures
        stands == prefix@.is_prefix_of(chars@.skip(at as int)),
{
    if chars.len() - at < prefix.len() {
        return false;
    }
    for j in 0..prefix.len()
        invariant
            at + prefix.len() <= chars.len(),
            forall|m: int| 0 <= m < j ==> chars@[at + m] == prefix@[m],
    {
        if chars[at + j] != prefix[j] {
            assert(chars@.skip(at as int).subrange(0, prefix@.len() as int)[j as int]
                != prefix@[j as int]);
            return false;
        }
    }
    assert(prefix@ =~= chars@.skip(at as int).subrange(0, prefix@.len() as int));
    true
}

/// Skips copies of `prefix` in `chars` from `from` on.
pub fn skip_copies(chars: &Vec<char>, from: usize, prefix: &Vec<char>) -> (to: usize)
    requires
        from <= chars.len(),
        prefix.len() > 0,
    ensures
        from <= to <= chars.len(),
        chars@.skip(to as int) == trimmed(chars@.skip(from as int), prefix@),
{
    let mut to: usize = from;
    while stands_at(chars, to, prefix)
        invariant
            from <= to <= chars.len(),
            prefix.len() > 0,
            trimmed(chars@.skip(to as int), prefix@) == trimmed(
                chars@.skip(from as int),
                prefix@,
            ),
        decreases chars.len() - to,
    {
        assert(chars@.skip(to as int).skip(prefix@.len() as int) =~= chars@.skip(
            to + prefix.len(),
        ));
        to = to + prefix.len();
    }
    to
}

/// A number written in hexadecimal, padded or not, consists of digits and reads back.
pub proof fn lemma_hex_text_reads_back(v: nat, width: nat)
    ensures
        hex_text(v, width).len() > 0,
        all_hex(hex_text(v, width)),
        hex_value(hex_text(v, width)) == v,
{
    lemma_hex_digits_read_back(v);
    lemma_zeros_add_nothing(width - hex_digits(v).len(), hex_digits(v));
}

proof fn lemma_hex_digits_read_back(v: nat)
    ensures
        hex_digits(v).len() > 0,
        all_hex(hex_digits(v)),
        hex_value(hex_digits(v)) == v,
    decreases v,
{
    let s = hex_digits(v);
    assert(is_hex_digit(digit_char(v % 16)));
    assert(hex_digit_value(digit_char(v % 16)) == v % 16);
    if v < 16 {
        assert(s.drop_last().len() == 0);
        assert(s.last() == digit_char(v));
        assert(hex_value(s.drop_last()) == 0);
    } else {
        lemma_hex_digits_read_back(v / 16);
        assert(s.drop_last() =~= hex_digits(v / 16));
        assert(s.last() == digit_char(v % 16));
    }
}

proof fn lemma_zeros_add_nothing(n: int, s: Seq<char>)
    requires
        all_hex(s),
    ensures
        all_hex(zeros(n) + s),
        hex_value(zeros(n) + s) == hex_value(s),
    decreases n, s.len(),
{
    if s.len() == 0 {
        if n <= 0 {
            assert(zeros(n) + s =~= s);
        } else {
            assert((zeros(n) + s).drop_last() =~= zeros(n - 1) + s);
            lemma_zeros_add_nothing(n - 1, s);
        }
    } else {
        assert((zeros(n) + s).drop_last() =~= zeros(n) + s.drop_last());
        lemma_zeros_add_nothing(n, s.drop_last());
    }
}

/// Digits in lower case write the same number.
pub proof fn lemma_lowered_value(s: Seq<char>)
    requires
        all_hex(s),
    ensures
        all_hex(lowered(s)),
        hex_value(lowered(s)) == hex_value(s),
    decreases s.len(),
{
    assert forall|i: int| 0 <= i < s.len() implies is_hex_digit(#[trigger] lowered(s)[i]) by {
        assert(is_hex_digit(s[i]));
    }
    if s.len() > 0 {
        assert(lowered(s).drop_last() =~= lowered(s.drop_last()));
        assert(lowered(s).last() == lower_char(s.last()));
        assert(is_hex_digit(s[s.len() - 1]));
        lemma_lowered_value(s.drop_last());
    }
}

/// Digits behind one `0x` are what trimming `0x` leaves, and digits alone stay as they are.
pub proof fn lemma_trimmed_0x(s: Seq<char>)
    requires
        all_hex(s),
    ensures
        trimmed(s, "0x"@) == s,
        trimmed("0x"@ + s, "0x"@) == s,
{
    reveal_strlit("0x");
    if "0x"@.is_prefix_of(s) {
        assert(s.subrange(0, 2)[1] == s[1]);
        assert(is_hex_digit(s[1]));
    }
    assert(("0x"@ + s).subrange(0, 2) =~= "0x"@);
    assert(("0x"@ + s).skip(2) =~= s);
}

/// Digits behind one dollar sign are what trimming the sign leaves, and digits alone stay.
pub proof fn lemma_trimmed_dollar(s: Seq<char>)
    requires
        all_hex(s),
    ensures
        trimmed(s, "$"@) == s,
        trimmed("$"@ + s, "$"@) == s,
{
    reveal_strlit("$");
    if "$"@.is_prefix_of(s) {
        assert(s.subrange(0, 1)[0] == s[0]);
        assert(is_hex_digit(s[0]));
    }
    assert(("$"@ + s).subrange(0, 1) =~= "$"@);
    assert(("$"@ + s).skip(1) =~= s);
}

/// Digits for a number in range read as that number.
pub proof fn lemma_digits_are_number(s: Seq<char>, max: nat)
    requires
        s.len() > 0,
        all_hex(s),
        hex_value(s) <= max,
    ensures
        hex_number(s, max) == Ok::<nat, HexError>(hex_value(s)),
{
    assert(is_hex_digit(s[0]));
}

/// A digit is one of the sixteen, in either case, and its value is its place among them.
pub proof fn law_digit_value(c: char)
    ensures
        forall|d: int|
            0 <= d < 16 && (c == #[trigger] "0123456789ABCDEF"@[d] || c == "0123456789abcdef"@[d])
                ==> is_hex_digit(c) && hex_digit_value(c) == d,
        is_hex_digit(c) ==> "0123456789ABCDEF"@.contains(c) || "0123456789abcdef"@.contains(c),
{
    reveal_strlit("0123456789ABCDEF");
    reveal_strlit("0123456789abcdef");
    if is_hex_digit(c) {
        let d = hex_digit_value(c) as int;
        assert("0123456789ABCDEF"@[d] == c || "0123456789abcdef"@[d] == c);
    }
}

/// What one more character does to the number that a text writes, and to whether some start of
/// it writes more than `max`.
proof fn lemma_one_more_character(s: Seq<char>, c: char, max: nat)
    ensures
        s.push(c).take(s.len() as int) == s,
        hex_exceeds(s, max) ==> hex_exceeds(s.push(c), max),
        hex_exceeds(s.push(c), max) ==> hex_exceeds(s, max) || (all_hex(s.push(c)) && hex_value(
            s.push(c),
        ) > max),
        all_hex(s.push(c)) <==> all_hex(s) && is_hex_digit(c),
        hex_value(s.push(c)) == hex_value(s) * 16 + hex_digit_value(c),
        all_hex(s) && hex_value(s) > max ==> hex_exceeds(s, max),
        all_hex(s) && hex_exceeds(s, max) ==> hex_value(s) > max,
{
    let t = s.push(c);
    assert(t.take(s.len() as int) =~= s);
    assert(t.drop_last() =~= s);
    assert(s.take(s.len() as int) =~= s);
    assert(t.take(t.len() as int) =~= t);
    if hex_exceeds(s, max) {
        let k = choose|k: int|
            0 <= k <= s.len() && #[trigger] all_hex(s.take(k)) && hex_value(s.take(k)) > max;
        assert(t.take(k) =~= s.take(k));
        lemma_prefix_value(s, k);
    }
    if hex_exceeds(t, max) {
        let k = choose|k: int|
            0 <= k <= t.len() && #[trigger] all_hex(t.take(k)) && hex_value(t.take(k)) > max;
        if k <= s.len() {
            assert(t.take(k) =~= s.take(k));
        }
    }
    if all_hex(s) && is_hex_digit(c) {
        assert forall|i: int| 0 <= i < t.len() implies is_hex_digit(#[trigger] t[i]) by {
            if i < s.len() {
                assert(t[i] == s[i]);
            }
        }
    }
    if all_hex(t) {
        assert forall|i: int| 0 <= i < s.len() implies is_hex_digit(#[trigger] s[i]) by {
            assert(t[i] == s[i]);
        }
        assert(is_hex_digit(t[s.len() as int]));
    }
}

/// Numbers are read digit by digit. No text is no number; each further digit, in either case,
/// makes the number sixteen times as large and adds its value, until it is too large, whatever
/// follows then; any other character makes it no number, whatever follows. A plus sign before
/// the first digit changes nothing.
pub proof fn law_number_is_read_digit_by_digit(s: Seq<char>, c: char, max: nat)
    ensures
        hex_number(seq![], max) == Err::<nat, HexError>(HexError::Empty),
        forall|d: int|
            0 <= d < 16 && (c == #[trigger] "0123456789ABCDEF"@[d] || c == "0123456789abcdef"@[d])
                ==> {
                &&& s.len() == 0 || s == "+"@ ==> hex_number(s.push(c), max) == if d <= max {
                    Ok::<nat, HexError>(d as nat)
                } else {
                    Err(HexError::Overflow)
                }
                &&& hex_number(s, max) matches Ok(v) ==> hex_number(s.push(c), max) == if 16 * v + d
                    <= max {
                    Ok::<nat, HexError>((16 * v + d) as nat)
                } else {
                    Err(HexError::Overflow)
                }
            },
        !"0123456789ABCDEF"@.contains(c) && !"0123456789abcdef"@.contains(c) && (s.len() == 0 || s
            == "+"@ || hex_number(s, max) is Ok) ==> hex_number(s.push(c), max) == Err::<
            nat,
            HexError,
        >(HexError::InvalidDigit),
        hex_number(s, max) == Err::<nat, HexError>(HexError::Overflow) ==> hex_number(
            s.push(c),
            max,
        ) == Err::<nat, HexError>(HexError::Overflow),
        hex_number(s, max) == Err::<nat, HexError>(HexError::InvalidDigit) && s != "+"@
            ==> hex_number(s.push(c), max) == Err::<nat, HexError>(HexError::InvalidDigit),
{
    reveal_strlit("+");
    law_digit_value(c);
    lemma_one_more_character_is_read(s, c, max);
    assert(s == "+"@ ==> s.len() == 1 && s[0] == '+');
    if s.len() == 1 && s[0] == '+' {
        assert(s =~= "+"@);
    }
    assert forall|d: int|
        0 <= d < 16 && (c == #[trigger] "0123456789ABCDEF"@[d] || c
            == "0123456789abcdef"@[d]) implies {
        &&& s.len() == 0 || s == "+"@ ==> hex_number(s.push(c), max) == if d <= max {
            Ok::<nat, HexError>(d as nat)
        } else {
            Err(HexError::Overflow)
        }
        &&& hex_number(s, max) matches Ok(v) ==> hex_number(s.push(c), max) == if 16 * v + d
            <= max {
            Ok::<nat, HexError>((16 * v + d) as nat)
        } else {
            Err(HexError::Overflow)
        }
    } by {
        assert(is_hex_digit(c) && hex_digit_value(c) == d);
    }
}

/// What `s` with one more character `c` reads as, by what `s` reads as.
proof fn lemma_one_more_character_is_read(s: Seq<char>, c: char, max: nat)
    ensures
        hex_number(s.push(c), max) == if s.len() == 0 || (s.len() == 1 && s[0] == '+') {
            if !is_hex_digit(c) {
                Err::<nat, HexError>(HexError::InvalidDigit)
            } else if hex_digit_value(c) <= max {
                Ok(hex_digit_value(c))
            } else {
                Err(HexError::Overflow)
            }
        } else {
            match hex_number(s, max) {
                Err(e) => Err(e),
                Ok(v) => if !is_hex_digit(c) {
                    Err(HexError::InvalidDigit)
                } else if v * 16 + hex_digit_value(c) <= max {
                    Ok(v * 16 + hex_digit_value(c))
                } else {
                    Err(HexError::Overflow)
                },
            }
        },
{
    let t = s.push(c);
    let body = unsigned_part(s);
    if s.len() == 0 && c == '+' {
        assert(unsigned_part(t) =~= seq![]);
        lemma_no_digits(unsigned_part(t), max);
    } else {
        assert(unsigned_part(t) =~= body.push(c));
        lemma_one_more_character(body, c, max);
        if body.len() == 0 {
            lemma_no_digits(body, max);
        }
        lemma_all_hex_exceeds(body.push(c), max);
    }
}

proof fn lemma_no_digits(s: Seq<char>, max: nat)
    requires
        s.len() == 0,
    ensures
        !hex_exceeds(s, max),
        all_hex(s),
        hex_value(s) == 0,
{
    assert forall|k: int| 0 <= k <= s.len() implies hex_value(#[trigger] s.take(k)) <= max by {
        assert(s.take(k).len() == 0);
    }
}

proof fn lemma_all_hex_exceeds(s: Seq<char>, max: nat)
    ensures
        all_hex(s) ==> (hex_exceeds(s, max) <==> hex_value(s) > max),
{
    assert(s.take(s.len() as int) =~= s);
    if all_hex(s) && hex_exceeds(s, max) {
        let k = choose|k: int|
            0 <= k <= s.len() && #[trigger] all_hex(s.take(k)) && hex_value(s.take(k)) > max;
        lemma_prefix_value(s, k);
    }
}

/// Whatever is said of an error names it, and it alone.
pub proof fn law_error_is_named(e: HexError, text: &'static str)
    requires
        call_ensures(HexError::message, (&e,), text),
    ensures
        e is Empty <==> text@ == "cannot parse integer from empty string"@,
        e is InvalidDigit <==> text@ == "invalid digit found in string"@,
        e is Overflow <==> text@ == "number too large to fit in target type"@,
{
    assert(text@ == e.words());
    reveal_strlit("cannot parse integer from empty string");
    reveal_strlit("invalid digit found in string");
    reveal_strlit("number too large to fit in target type");
    assert("cannot parse integer from empty string"@[0] == 'c');
    assert("invalid digit found in string"@[0] == 'i');
    assert("number too large to fit in target type"@[0] == 'n');
}

} // verus!
