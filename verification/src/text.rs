//! Text as sequences of characters: numbers written in base ten and sixteen,
//! ASCII case, and the small string operations that parsing needs.

use vstd::prelude::*;

verus! {

/// The character that writes the digit `d` in upper-case hexadecimal.
pub open spec fn digit_char(d: nat) -> char {
    if d < 10 {
        (48 + d) as char
    } else {
        (55 + d) as char
    }
}

/// The digits of `v` in hexadecimal, most significant first, without leading zeros.
pub open spec fn hex_digits(v: nat) -> Seq<char>
    decreases v,
{
    if v < 16 {
        seq![digit_char(v)]
    } else {
        hex_digits(v / 16).push(digit_char(v % 16))
    }
}

/// `n` zero digits.
pub open spec fn zeros(n: int) -> Seq<char> {
    Seq::new(if n < 0 { 0 } else { n as nat }, |i: int| '0')
}

/// `v` in upper-case hexadecimal, padded with zeros on the left to at least `width` digits.
pub open spec fn hex_text(v: nat, width: nat) -> Seq<char> {
    zeros(width - hex_digits(v).len()) + hex_digits(v)
}

/// `v` in decimal, most significant digit first, without leading zeros.
pub open spec fn dec_text(v: nat) -> Seq<char>
    decreases v,
{
    if v < 10 {
        seq![digit_char(v)]
    } else {
        dec_text(v / 10).push(digit_char(v % 10))
    }
}

/// `c` with an ASCII upper-case letter turned into its lower-case form.
pub open spec fn lower_char(c: char) -> char {
    if 'A' <= c <= 'Z' {
        (c as u8 + 32) as char
    } else {
        c
    }
}

/// `s` with every ASCII upper-case letter turned into its lower-case form.
pub open spec fn lowered(s: Seq<char>) -> Seq<char> {
    s.map_values(|c: char| lower_char(c))
}

/// `s` without any number of copies of `prefix` at its start.
pub open spec fn trimmed(s: Seq<char>, prefix: Seq<char>) -> Seq<char>
    decreases s.len(),
{
    if prefix.len() > 0 && prefix.is_prefix_of(s) {
        trimmed(s.skip(prefix.len() as int), prefix)
    } else {
        s
    }
}

/// How many characters of `s` stand before its first `c`; the length of `s` if there is none.
pub open spec fn first_index(s: Seq<char>, c: char) -> nat
    decreases s.len(),
{
    if s.len() == 0 || s[0] == c {
        0
    } else {
        1 + first_index(s.skip(1), c)
    }
}

/// How often `c` occurs in `s`.
pub open spec fn occurrences(s: Seq<char>, c: char) -> nat
    decreases s.len(),
{
    if s.len() == 0 {
        0
    } else {
        occurrences(s.drop_last(), c) + if s.last() == c { 1nat } else { 0nat }
    }
}

/// The characters of `s`.
pub fn chars_of(s: &str) -> (chars: Vec<char>)
    ensures
        chars@ == s@,
{
    let mut chars: Vec<char> = Vec::new();
    for c in it: s.chars()
        invariant
            chars@ == it.seq().take(it.index() as int),
            it.seq() == s@,
    {
        chars.push(c);
    }
    chars
}

/// The characters of `s`, in lower case.
pub fn lower_chars(s: &str) -> (chars: Vec<char>)
    ensures
        chars@ == lowered(s@),
{
    let all = chars_of(s);
    let mut chars: Vec<char> = Vec::new();
    for i in 0..all.len()
        invariant
            all@ == s@,
            chars@ == lowered(s@.take(i as int)),
    {
        let c = all[i];
        let low = if 'A' <= c && c <= 'Z' {
            (c as u8 + 32) as char
        } else {
            c
        };
        chars.push(low);
        assert(s@.take(i + 1) =~= s@.take(i as int).push(c));
        assert(chars@ =~= lowered(s@.take(i + 1)));
    }
    assert(s@.take(all.len() as int) =~= s@);
    chars
}

/// Whether `chars` spells `text`.
pub fn spells(chars: &Vec<char>, text: &str) -> (same: bool)
    ensures
        same == (chars@ == text@),
{
    let other = chars_of(text);
    if chars.len() != other.len() {
        return false;
    }
    for i in 0..chars.len()
        invariant
            other@ == text@,
            chars.len() == other.len(),
            forall|j: int| 0 <= j < i ==> chars@[j] == other@[j],
    {
        if chars[i] != other[i] {
            return false;
        }
    }
    assert(chars@ =~= text@);
    true
}

/// The one-character string that writes the digit `d`.
fn digit_str(d: u64) -> (s: &'static str)
    requires
        d < 16,
    ensures
        s@ == seq![digit_char(d as nat)],
{
    proof {
        reveal_strlit("0");
        reveal_strlit("1");
        reveal_strlit("2");
        reveal_strlit("3");
        reveal_strlit("4");
        reveal_strlit("5");
        reveal_strlit("6");
        reveal_strlit("7");
        reveal_strlit("8");
        reveal_strlit("9");
        reveal_strlit("A");
        reveal_strlit("B");
        reveal_strlit("C");
        reveal_strlit("D");
        reveal_strlit("E");
        reveal_strlit("F");
    }
    if d == 0 {
        "0"
    } else if d == 1 {
        "1"
    } else if d == 2 {
        "2"
    } else if d == 3 {
        "3"
    } else if d == 4 {
        "4"
    } else if d == 5 {
        "5"
    } else if d == 6 {
        "6"
    } else if d == 7 {
        "7"
    } else if d == 8 {
        "8"
    } else if d == 9 {
        "9"
    } else if d == 10 {
        "A"
    } else if d == 11 {
        "B"
    } else if d == 12 {
        "C"
    } else if d == 13 {
        "D"
    } else if d == 14 {
        "E"
    } else {
        "F"
    }
}

/// Appends the digits of `v` in hexadecimal.
fn push_hex_digits(out: &mut String, v: u64)
    ensures
        final(out)@ == old(out)@ + hex_digits(v as nat),
    decreases v,
{
    if v >= 16 {
        push_hex_digits(out, v / 16);
    }
    out.append(digit_str(v % 16));
    assert(out@ =~= old(out)@ + hex_digits(v as nat));
}

/// A number under `16^n` has at most `n` hexadecimal digits.
pub proof fn lemma_hex_digits_len(v: nat, n: nat)
    requires
        n >= 1,
        v < vstd::arithmetic::power::pow(16, n),
    ensures
        1 <= hex_digits(v).len() <= n,
    decreases n,
{
    vstd::arithmetic::power::lemma_pow1(16);
    if v >= 16 {
        assert(n > 1);
        assert(v / 16 < vstd::arithmetic::power::pow(16, (n - 1) as nat)) by {
            reveal(vstd::arithmetic::power::pow);
        }
        lemma_hex_digits_len(v / 16, (n - 1) as nat);
    }
}

/// How many hexadecimal digits `v` has.
fn hex_len(v: u64) -> (n: usize)
    ensures
        n == hex_digits(v as nat).len(),
{
    let mut n: usize = 1;
    let mut rest: u64 = v;
    proof {
        assert(v < vstd::arithmetic::power::pow(16, 16)) by {
            reveal_with_fuel(vstd::arithmetic::power::pow, 17);
        }
        lemma_hex_digits_len(v as nat, 16);
    }
    while rest >= 16
        invariant
            1 <= n,
            n - 1 + hex_digits(rest as nat).len() == hex_digits(v as nat).len(),
            hex_digits(v as nat).len() <= 16,
        decreases rest,
    {
        rest = rest / 16;
        n = n + 1;
    }
    n
}

/// Appends `v` in upper-case hexadecimal with at least `width` digits.
pub fn push_hex(out: &mut String, v: u64, width: usize)
    ensures
        final(out)@ == old(out)@ + hex_text(v as nat, width as nat),
{
    let n = hex_len(v);
    let mut i: usize = n;
    while i < width
        invariant
            n <= i,
            n < width ==> i <= width,
            n >= width ==> i == n,
            out@ == old(out)@ + zeros(i - n),
        decreases width - i,
    {
        proof {
            reveal_strlit("0");
        }
        out.append("0");
        i = i + 1;
        assert(out@ =~= old(out)@ + zeros(i - n));
    }
    push_hex_digits(out, v);
    assert(out@ =~= old(out)@ + hex_text(v as nat, width as nat));
}

/// Appends `v` in decimal.
pub fn push_dec(out: &mut String, v: u64)
    ensures
        final(out)@ == old(out)@ + dec_text(v as nat),
    decreases v,
{
    if v >= 10 {
        push_dec(out, v / 10);
    }
    out.append(digit_str(v % 10));
    assert(out@ =~= old(out)@ + dec_text(v as nat));
}

/// What occurs in two texts occurs in their concatenation.
pub proof fn lemma_occurrences_add(a: Seq<char>, b: Seq<char>, c: char)
    ensures
        occurrences(a + b, c) == occurrences(a, c) + occurrences(b, c),
    decreases b.len(),
{
    if b.len() == 0 {
        assert(a + b =~= a);
    } else {
        assert((a + b).drop_last() =~= a + b.drop_last());
        lemma_occurrences_add(a, b.drop_last(), c);
    }
}

/// A character that stands nowhere does not occur.
pub proof fn lemma_no_occurrence(s: Seq<char>, c: char)
    requires
        !s.contains(c),
    ensures
        occurrences(s, c) == 0,
    decreases s.len(),
{
    if s.len() > 0 {
        assert(s[s.len() - 1] != c);
        assert forall|i: int| 0 <= i < s.len() - 1 implies s.drop_last()[i] != c by {
            assert(s[i] != c);
        }
        lemma_no_occurrence(s.drop_last(), c);
    }
}

/// How often `c` occurs among the first `n` characters of `s`.
pub open spec fn occurrences_upto(s: Seq<char>, c: char, n: int) -> nat
    decreases n,
{
    if n <= 0 {
        0
    } else {
        occurrences_upto(s, c, n - 1) + if s[n - 1] == c { 1nat } else { 0nat }
    }
}

/// Counting by index counts every occurrence.
pub proof fn lemma_occurrences_upto(s: Seq<char>, c: char, n: int)
    requires
        0 <= n <= s.len(),
    ensures
        occurrences_upto(s, c, n) == occurrences(s.take(n), c),
    decreases n,
{
    if n > 0 {
        lemma_occurrences_upto(s, c, n - 1);
        assert(s.take(n).drop_last() =~= s.take(n - 1));
    }
}

/// Numbers are written with digits alone.
pub proof fn lemma_numbers_hold_digits(v: nat, width: nat, c: char)
    requires
        c < '0' || c > 'F',
    ensures
        occurrences(hex_text(v, width), c) == 0,
        occurrences(dec_text(v), c) == 0,
{
    lemma_hex_digits_chars(v);
    lemma_dec_text_chars(v);
    lemma_no_occurrence(hex_text(v, width), c);
    lemma_no_occurrence(dec_text(v), c);
}

proof fn lemma_hex_digits_chars(v: nat)
    ensures
        forall|i: int| 0 <= i < hex_digits(v).len() ==> '0' <= #[trigger] hex_digits(v)[i] <= 'F',
    decreases v,
{
    if v >= 16 {
        lemma_hex_digits_chars(v / 16);
        assert forall|i: int| 0 <= i < hex_digits(v).len() implies '0' <= #[trigger] hex_digits(v)[i]
            <= 'F' by {
            if i < hex_digits(v).len() - 1 {
                assert(hex_digits(v)[i] == hex_digits(v / 16)[i]);
            }
        }
    }
}

proof fn lemma_dec_text_chars(v: nat)
    ensures
        forall|i: int| 0 <= i < dec_text(v).len() ==> '0' <= #[trigger] dec_text(v)[i] <= 'F',
    decreases v,
{
    if v >= 10 {
        lemma_dec_text_chars(v / 10);
        assert forall|i: int| 0 <= i < dec_text(v).len() implies '0' <= #[trigger] dec_text(v)[i]
            <= 'F' by {
            if i < dec_text(v).len() - 1 {
                assert(dec_text(v)[i] == dec_text(v / 10)[i]);
            }
        }
    }
}

/// A number that needs no more than `width` digits is written with exactly that many.
pub proof fn law_padded_width(v: nat, width: nat)
    requires
        width >= 1,
        v < vstd::arithmetic::power::pow(16, width),
    ensures
        hex_text(v, width).len() == width,
{
    lemma_hex_digits_len(v, width);
}

proof fn lemma_digit_chars(d: nat)
    requires
        d < 16,
    ensures
        digit_char(d) == "0123456789ABCDEF"@[d as int],
        d < 10 ==> digit_char(d) == "0123456789"@[d as int],
{
    reveal_strlit("0123456789ABCDEF");
    reveal_strlit("0123456789");
}

proof fn lemma_hex_digits_place(v: nat, i: nat)
    requires
        i < hex_digits(v).len(),
    ensures
        hex_digits(v)[hex_digits(v).len() - 1 - i] == "0123456789ABCDEF"@[v as int
            / vstd::arithmetic::power::pow(16, i) % 16],
    decreases v,
{
    let s = hex_digits(v);
    vstd::arithmetic::power::lemma_pow0(16);
    lemma_digit_chars(v % 16);
    if i > 0 {
        lemma_hex_digits_place(v / 16, (i - 1) as nat);
        assert(s[s.len() - 1 - i] == hex_digits(v / 16)[hex_digits(v / 16).len() - 1 - (i - 1)]);
        vstd::arithmetic::power::lemma_pow_positive(16, (i - 1) as nat);
        vstd::arithmetic::div_mod::lemma_div_denominator(
            v as int,
            16,
            vstd::arithmetic::power::pow(16, (i - 1) as nat),
        );
        reveal(vstd::arithmetic::power::pow);
    }
}

proof fn lemma_hex_digits_fit(v: nat)
    ensures
        hex_digits(v).len() >= 1,
        v < vstd::arithmetic::power::pow(16, hex_digits(v).len()),
        hex_digits(v).len() > 1 ==> v >= vstd::arithmetic::power::pow(
            16,
            (hex_digits(v).len() - 1) as nat,
        ),
    decreases v,
{
    let n = hex_digits(v).len();
    vstd::arithmetic::power::lemma_pow0(16);
    vstd::arithmetic::power::lemma_pow1(16);
    if v >= 16 {
        lemma_hex_digits_fit(v / 16);
        assert(n == hex_digits(v / 16).len() + 1);
        reveal(vstd::arithmetic::power::pow);
        assert(vstd::arithmetic::power::pow(16, n) == 16 * vstd::arithmetic::power::pow(
            16,
            (n - 1) as nat,
        ));
        if n > 2 {
            assert(vstd::arithmetic::power::pow(16, (n - 1) as nat) == 16
                * vstd::arithmetic::power::pow(16, (n - 2) as nat));
        }
    }
}

proof fn lemma_dec_text_place(v: nat, i: nat)
    requires
        i < dec_text(v).len(),
    ensures
        dec_text(v)[dec_text(v).len() - 1 - i] == "0123456789"@[v as int
            / vstd::arithmetic::power::pow(10, i) % 10],
    decreases v,
{
    let s = dec_text(v);
    vstd::arithmetic::power::lemma_pow0(10);
    lemma_digit_chars(v % 10);
    if i > 0 {
        lemma_dec_text_place(v / 10, (i - 1) as nat);
        assert(s[s.len() - 1 - i] == dec_text(v / 10)[dec_text(v / 10).len() - 1 - (i - 1)]);
        vstd::arithmetic::power::lemma_pow_positive(10, (i - 1) as nat);
        vstd::arithmetic::div_mod::lemma_div_denominator(
            v as int,
            10,
            vstd::arithmetic::power::pow(10, (i - 1) as nat),
        );
        reveal(vstd::arithmetic::power::pow);
    }
}

/// A number in hexadecimal has at every place the digit of that place, in upper case, and has
/// no more digits than it needs or than it is padded to.
pub proof fn law_hex_text_is_the_number(v: nat, width: nat)
    ensures
        ({
            let s = hex_text(v, width);
            &&& s.len() >= width
            &&& s.len() >= 1
            &&& v < vstd::arithmetic::power::pow(16, s.len())
            &&& s.len() > width && s.len() > 1 ==> v >= vstd::arithmetic::power::pow(
                16,
                (s.len() - 1) as nat,
            )
            &&& forall|i: nat|
                i < s.len() ==> #[trigger] s[s.len() - 1 - i] == "0123456789ABCDEF"@[v as int
                    / vstd::arithmetic::power::pow(16, i) % 16]
        }),
{
    let s = hex_text(v, width);
    let n = hex_digits(v).len();
    lemma_hex_digits_fit(v);
    vstd::arithmetic::power::lemma_pow_increases(16, n, s.len());
    assert forall|i: nat| i < s.len() implies #[trigger] s[s.len() - 1 - i]
        == "0123456789ABCDEF"@[v as int / vstd::arithmetic::power::pow(16, i) % 16] by {
        if i < n {
            lemma_hex_digits_place(v, i);
            assert(s[s.len() - 1 - i] == hex_digits(v)[n - 1 - i]);
        } else {
            vstd::arithmetic::power::lemma_pow_increases(16, n, i);
            vstd::arithmetic::div_mod::lemma_basic_div(
                v as int,
                vstd::arithmetic::power::pow(16, i),
            );
            reveal_strlit("0123456789ABCDEF");
        }
    }
}

/// A number in decimal has at every place the digit of that place, and no more digits than it
/// needs.
pub proof fn law_dec_text_is_the_number(v: nat)
    ensures
        ({
            let s = dec_text(v);
            &&& s.len() >= 1
            &&& v < vstd::arithmetic::power::pow(10, s.len())
            &&& s.len() > 1 ==> v >= vstd::arithmetic::power::pow(10, (s.len() - 1) as nat)
            &&& forall|i: nat|
                i < s.len() ==> #[trigger] s[s.len() - 1 - i] == "0123456789"@[v as int
                    / vstd::arithmetic::power::pow(10, i) % 10]
        }),
    decreases v,
{
    let s = dec_text(v);
    let n = s.len();
    assert forall|i: nat| i < s.len() implies #[trigger] s[s.len() - 1 - i]
        == "0123456789"@[v as int / vstd::arithmetic::power::pow(10, i) % 10] by {
        lemma_dec_text_place(v, i);
    }
    vstd::arithmetic::power::lemma_pow0(10);
    vstd::arithmetic::power::lemma_pow1(10);
    if v >= 10 {
        law_dec_text_is_the_number(v / 10);
        assert(n == dec_text(v / 10).len() + 1);
        reveal(vstd::arithmetic::power::pow);
        assert(vstd::arithmetic::power::pow(10, n) == 10 * vstd::arithmetic::power::pow(
            10,
            (n - 1) as nat,
        ));
        if n > 2 {
            assert(vstd::arithmetic::power::pow(10, (n - 1) as nat) == 10
                * vstd::arithmetic::power::pow(10, (n - 2) as nat));
        }
    }
}

/// Lower case changes the 26 capital letters of ASCII, each into the small letter of the same
/// place in the alphabet, and no other character.
pub proof fn law_lower_case(s: Seq<char>, i: int)
    requires
        0 <= i < s.len(),
    ensures
        lowered(s).len() == s.len(),
        forall|k: int|
            0 <= k < 26 && s[i] == #[trigger] "ABCDEFGHIJKLMNOPQRSTUVWXYZ"@[k] ==> lowered(s)[i]
                == "abcdefghijklmnopqrstuvwxyz"@[k],
        !"ABCDEFGHIJKLMNOPQRSTUVWXYZ"@.contains(s[i]) ==> lowered(s)[i] == s[i],
{
    reveal_strlit("ABCDEFGHIJKLMNOPQRSTUVWXYZ");
    reveal_strlit("abcdefghijklmnopqrstuvwxyz");
    let capitals = "ABCDEFGHIJKLMNOPQRSTUVWXYZ"@;
    if 'A' <= s[i] <= 'Z' {
        let k = s[i] as int - 'A' as int;
        assert(capitals[k] == s[i]);
    }
}

/// Trimming takes away one copy of a prefix after the other: a text behind one more copy is
/// trimmed to the same, and one that does not start with the prefix stays whole. Nothing that
/// is left starts with it.
pub proof fn law_trimming(s: Seq<char>, prefix: Seq<char>)
    requires
        prefix.len() > 0,
    ensures
        trimmed(prefix + s, prefix) == trimmed(s, prefix),
        !prefix.is_prefix_of(s) ==> trimmed(s, prefix) == s,
        !prefix.is_prefix_of(trimmed(s, prefix)),
        trimmed(s, prefix).is_suffix_of(s),
    decreases s.len(),
{
    let n = prefix.len() as int;
    assert((prefix + s).subrange(0, n) =~= prefix);
    assert((prefix + s).skip(n) =~= s);
    if prefix.is_prefix_of(s) {
        law_trimming(s.skip(n), prefix);
        let t = trimmed(s, prefix);
        assert(t =~= s.skip(n).skip(s.len() - n - t.len()));
        assert(t =~= s.subrange(s.len() - t.len(), s.len() as int));
    } else {
        assert(s =~= s.subrange(0, s.len() as int));
    }
}

/// The first index of a character is where it stands and nowhere before; one that stands
/// nowhere has the length of the text for an index.
pub proof fn law_first_index(s: Seq<char>, c: char)
    ensures
        first_index(s, c) <= s.len(),
        first_index(s, c) < s.len() ==> s[first_index(s, c) as int] == c,
        forall|i: int| 0 <= i < first_index(s, c) ==> #[trigger] s[i] != c,
    decreases s.len(),
{
    if s.len() > 0 && s[0] != c {
        let rest = s.skip(1);
        law_first_index(rest, c);
        assert forall|i: int| 0 <= i < first_index(s, c) implies #[trigger] s[i] != c by {
            if i > 0 {
                assert(rest[i - 1] == s[i]);
            }
        }
    }
}

/// Eight digits write any number of 32 bits, four any of 16 and two any of eight.
pub proof fn lemma_exact_widths()
    ensures
        forall|v: u32| (#[trigger] hex_text(v as nat, 8)).len() == 8,
        forall|v: u16| (#[trigger] hex_text(v as nat, 4)).len() == 4,
        forall|v: u8| (#[trigger] hex_text(v as nat, 2)).len() == 2,
{
    assert(vstd::arithmetic::power::pow(16, 8) == 0x1_0000_0000) by {
        reveal_with_fuel(vstd::arithmetic::power::pow, 9);
    }
    assert(vstd::arithmetic::power::pow(16, 4) == 0x1_0000) by {
        reveal_with_fuel(vstd::arithmetic::power::pow, 5);
    }
    assert(vstd::arithmetic::power::pow(16, 2) == 0x100) by {
        reveal_with_fuel(vstd::arithmetic::power::pow, 3);
    }
    assert forall|v: u32| (#[trigger] hex_text(v as nat, 8)).len() == 8 by {
        law_padded_width(v as nat, 8);
    }
    assert forall|v: u16| (#[trigger] hex_text(v as nat, 4)).len() == 4 by {
        law_padded_width(v as nat, 4);
    }
    assert forall|v: u8| (#[trigger] hex_text(v as nat, 2)).len() == 2 by {
        law_padded_width(v as nat, 2);
    }
}

} // verus!
