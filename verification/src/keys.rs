//! Scripted keypresses as the command line writes them: `SECS:KEY[:HOLD]`.

use vstd::prelude::*;
use crate::hexnum::{
    all_hex, hex_exceeds, hex_number, hex_value, is_hex_digit, lemma_digits_are_number,
    lemma_hex_text_reads_back, lemma_lowered_value, lemma_trimmed_0x, read_hex, skip_copies,
    HexError,
};
use crate::text::{
    chars_of, first_index, hex_text, law_trimming, lower_chars, lowered, spells, trimmed,
};

verus! {

/// The fields of a keypress. `key` and `hold` are missing where there are too few colons;
/// whatever follows a third colon is dropped.
pub struct KeyFields {
    /// When the key goes down, in seconds
    pub secs: String,
    /// The name or the scancode of the key
    pub key: Option<String>,
    /// How long it stays down, in seconds
    pub hold: Option<String>,
}

/// The fields of a keypress as sequences of characters.
pub struct FieldTexts {
    pub secs: Seq<char>,
    pub key: Option<Seq<char>>,
    pub hold: Option<Seq<char>>,
}

impl View for KeyFields {
    type V = FieldTexts;

    open spec fn view(&self) -> FieldTexts {
        FieldTexts {
            secs: self.secs@,
            key: match self.key {
                Some(k) => Some(k@),
                None => None,
            },
            hold: match self.hold {
                Some(h) => Some(h@),
                None => None,
            },
        }
    }
}

/// Why a text is no keypress.
#[derive(Debug)]
pub enum KeyError<E> {
    /// SECS is no number.
    BadSecs(E),
    /// There is no KEY.
    MissingKey,
    /// KEY is neither a name nor a scancode.
    UnknownKey(String, HexError),
    /// HOLD is no number.
    BadHold(E),
}

/// The part of `s` before its first colon, or all of it.
pub open spec fn head(s: Seq<char>) -> Seq<char> {
    s.take(first_index(s, ':') as int)
}

/// The part of `s` behind its first colon, if it has one.
pub open spec fn tail(s: Seq<char>) -> Option<Seq<char>> {
    if first_index(s, ':') < s.len() {
        Some(s.skip(first_index(s, ':') as int + 1))
    } else {
        None
    }
}

/// The fields of the keypress `spec`.
pub open spec fn fields_of(spec: Seq<char>) -> FieldTexts {
    FieldTexts {
        secs: head(spec),
        key: match tail(spec) {
            Some(t) => Some(head(t)),
            None => None,
        },
        hold: match tail(spec) {
            Some(t) => match tail(t) {
                Some(u) => Some(head(u)),
                None => None,
            },
            None => None,
        },
    }
}

/// The scancode of the key named `name`, in lower case.
pub open spec fn named_key(name: Seq<char>) -> Option<u8> {
    if name == "return"@ {
        Some(0x24)
    } else if name == "enter"@ {
        Some(0x4C)
    } else if name == "shift"@ {
        Some(0x38)
    } else if name == "cmd"@ || name == "command"@ {
        Some(0x37)
    } else if name == "option"@ {
        Some(0x3A)
    } else if name == "space"@ {
        Some(0x31)
    } else if name == "esc"@ || name == "escape"@ {
        Some(0x35)
    } else {
        None
    }
}

/// The scancode that `key` means: a name in any case, or else a hexadecimal number,
/// behind any number of `0x`.
pub open spec fn scancode(key: Seq<char>) -> Result<u8, HexError> {
    match named_key(lowered(key)) {
        Some(code) => Ok(code),
        None => match hex_number(trimmed(lowered(key), "0x"@), 0xFF) {
            Ok(v) => Ok(v as u8),
            Err(e) => Err(e),
        },
    }
}

/// What a keypress of `key` comes to, where `secs` and `hold` are what its times read as and
/// a missing HOLD is `default_hold`. The first field that is wrong decides the error.
pub open spec fn key_press<T, E>(
    secs: Result<T, E>,
    key: Option<Seq<char>>,
    hold: Option<Result<T, E>>,
    default_hold: T,
    r: Result<(T, u8, T), KeyError<E>>,
) -> bool {
    match (secs, key) {
        (Err(e), _) => r == Err::<(T, u8, T), KeyError<E>>(KeyError::BadSecs(e)),
        (Ok(t), None) => r == Err::<(T, u8, T), KeyError<E>>(KeyError::MissingKey),
        (Ok(t), Some(k)) => match (scancode(k), hold) {
            (Err(why), _) => r matches Err(KeyError::UnknownKey(name, w)) && name@ == k && w == why,
            (Ok(code), None) => r == Ok::<(T, u8, T), KeyError<E>>((t, code, default_hold)),
            (Ok(code), Some(Ok(h))) => r == Ok::<(T, u8, T), KeyError<E>>((t, code, h)),
            (Ok(code), Some(Err(e))) => r == Err::<(T, u8, T), KeyError<E>>(KeyError::BadHold(e)),
        },
    }
}

/// Finds the first colon in `chars` from `from` on.
fn find_colon(chars: &Vec<char>, from: usize) -> (at: usize)
    requires
        from <= chars.len(),
    ensures
        from <= at <= chars.len(),
        at - from == first_index(chars@.skip(from as int), ':'),
{
    let mut at: usize = from;
    while at < chars.len() && chars[at] != ':'
        invariant
            from <= at <= chars.len(),
            at - from + first_index(chars@.skip(at as int), ':') == first_index(
                chars@.skip(from as int),
                ':',
            ),
        decreases chars.len() - at,
    {
        assert(chars@.skip(at as int).skip(1) =~= chars@.skip(at + 1));
        at = at + 1;
    }
    at
}

/// Splits a keypress into its fields.
pub fn split_key(spec: &str) -> (fields: KeyFields)
    ensures
        fields@ == fields_of(spec@),
{
    let chars = chars_of(spec);
    let n: usize = chars.len();
    assert(chars@.skip(0) =~= spec@);
    let secs_end = find_colon(&chars, 0);
    let secs = String::from_str(spec.substring_char(0, secs_end));
    if secs_end == n {
        return KeyFields { secs, key: None, hold: None };
    }
    let key_end = find_colon(&chars, secs_end + 1);
    let key = String::from_str(spec.substring_char(secs_end + 1, key_end));
    let ghost rest = spec@.skip(secs_end + 1);
    assert(key@ =~= head(rest));
    if key_end == n {
        return KeyFields { secs, key: Some(key), hold: None };
    }
    let hold_end = find_colon(&chars, key_end + 1);
    let hold = String::from_str(spec.substring_char(key_end + 1, hold_end));
    assert(rest.skip(first_index(rest, ':') as int + 1) =~= spec@.skip(key_end + 1));
    assert(hold@ =~= head(spec@.skip(key_end + 1)));
    KeyFields { secs, key: Some(key), hold: Some(hold) }
}

/// Finds the scancode that `key` means.
pub fn key_code(key: &str) -> (r: Result<u8, HexError>)
    ensures
        r == scancode(key@),
{
    let name = lower_chars(key);
    if spells(&name, "return") {
        Ok(0x24)
    } else if spells(&name, "enter") {
        Ok(0x4C)
    } else if spells(&name, "shift") {
        Ok(0x38)
    } else if spells(&name, "cmd") || spells(&name, "command") {
        Ok(0x37)
    } else if spells(&name, "option") {
        Ok(0x3A)
    } else if spells(&name, "space") {
        Ok(0x31)
    } else if spells(&name, "esc") || spells(&name, "escape") {
        Ok(0x35)
    } else {
        assert(name@.skip(0) =~= name@);
        proof {
            reveal_strlit("0x");
        }
        let digits = skip_copies(&name, 0, &chars_of("0x"));
        match read_hex(&name, digits, 0xFF) {
            Ok(v) => Ok(v as u8),
            Err(e) => Err(e),
        }
    }
}

/// Puts a keypress together from its key and from what its times read as.
pub fn join_key<T, E>(
    secs: Result<T, E>,
    key: Option<String>,
    hold: Option<Result<T, E>>,
    default_hold: T,
) -> (r: Result<(T, u8, T), KeyError<E>>)
    ensures
        key_press(
            secs,
            match key {
                Some(k) => Some(k@),
                None => None,
            },
            hold,
            default_hold,
            r,
        ),
{
    let press = match secs {
        Ok(t) => t,
        Err(e) => {
            return Err(KeyError::BadSecs(e));
        },
    };
    let key = match key {
        Some(k) => k,
        None => {
            return Err(KeyError::MissingKey);
        },
    };
    let code = match key_code(key.as_str()) {
        Ok(c) => c,
        Err(e) => {
            return Err(KeyError::UnknownKey(key, e));
        },
    };
    match hold {
        None => Ok((press, code, default_hold)),
        Some(Ok(t)) => Ok((press, code, t)),
        Some(Err(e)) => Err(KeyError::BadHold(e)),
    }
}

/// Whether `number` may read `text` as `r`.
pub open spec fn reads_as<T, E, F: Fn(&str) -> Result<T, E>>(
    number: F,
    text: Seq<char>,
    r: Result<T, E>,
) -> bool {
    exists|s: &str| s@ == text && #[trigger] call_ensures(number, (s,), r)
}

/// Whether `number` may read the text that may be missing as `r`, missing with it.
pub open spec fn maybe_reads_as<T, E, F: Fn(&str) -> Result<T, E>>(
    number: F,
    text: Option<Seq<char>>,
    r: Option<Result<T, E>>,
) -> bool {
    match (text, r) {
        (Some(t), Some(v)) => reads_as(number, t, v),
        (None, None) => true,
        _ => false,
    }
}

/// Parses "SECS:KEY[:HOLD]" into (press time, Universal scancode, hold time). `number` reads
/// the times; a missing HOLD is `default_hold`.
pub fn parse_key<T, E, F: Fn(&str) -> Result<T, E>>(
    spec: &str,
    number: F,
    default_hold: T,
) -> (r: Result<(T, u8, T), KeyError<E>>)
    requires
        forall|s: &str| call_requires(number, (s,)),
    ensures
        exists|secs: Result<T, E>, hold: Option<Result<T, E>>|
            #![trigger key_press(secs, fields_of(spec@).key, hold, default_hold, r)]
            reads_as(number, fields_of(spec@).secs, secs)
                && maybe_reads_as(number, fields_of(spec@).hold, hold)
                && key_press(secs, fields_of(spec@).key, hold, default_hold, r),
{
    let fields = split_key(spec);
    let secs = number(fields.secs.as_str());
    assert(reads_as(number, fields_of(spec@).secs, secs));
    let hold = match &fields.hold {
        Some(h) => Some(number(h.as_str())),
        None => None,
    };
    assert(maybe_reads_as(number, fields_of(spec@).hold, hold));
    let r = join_key(secs, fields.key, hold, default_hold);
    assert(key_press(secs, fields_of(spec@).key, hold, default_hold, r));
    r
}

impl<E> KeyError<E> {
    /// What to say of this error in the keypress `spec`.
    pub open spec fn words(self, spec: Seq<char>) -> Seq<char> {
        "--key '"@ + spec + match self {
            KeyError::BadSecs(_) => "': bad SECS"@,
            KeyError::MissingKey => "': expected SECS:KEY"@,
            KeyError::UnknownKey(key, _) => "': unknown key '"@ + key@ + "'"@,
            KeyError::BadHold(_) => "': bad HOLD"@,
        }
    }

    /// Says what is wrong with the keypress `spec`.
    pub fn message(&self, spec: &str) -> (text: String)
        ensures
            text@ == self.words(spec@),
    {
        let mut text = String::new();
        text.append("--key '");
        text.append(spec);
        match self {
            KeyError::BadSecs(_) => text.append("': bad SECS"),
            KeyError::MissingKey => text.append("': expected SECS:KEY"),
            KeyError::UnknownKey(key, _) => {
                text.append("': unknown key '");
                text.append(key.as_str());
                text.append("'");
            },
            KeyError::BadHold(_) => text.append("': bad HOLD"),
        }
        assert(text@ =~= self.words(spec@));
        text
    }
}

/// A text without colons is its own first field, and ends at a colon that follows it.
proof fn lemma_head_tail(s: Seq<char>, rest: Seq<char>)
    requires
        !s.contains(':'),
    ensures
        head(s) == s,
        tail(s) == None::<Seq<char>>,
        head(s + ":"@ + rest) == s,
        tail(s + ":"@ + rest) == Some(rest),
{
    reveal_strlit(":");
    let all = s + ":"@ + rest;
    assert forall|i: int| 0 <= i < s.len() implies s[i] != ':' && all[i] == s[i] by {}
    lemma_first_index(s, s.len() as int);
    lemma_first_index(all, s.len() as int);
    assert(head(s) =~= s);
    assert(head(all) =~= s);
    assert(all.skip(s.len() as int + 1) =~= rest);
}

/// Where no colon stands before `n`, and one at `n` or the end, the first is at `n`.
proof fn lemma_first_index(s: Seq<char>, n: int)
    requires
        0 <= n <= s.len(),
        forall|i: int| 0 <= i < n ==> s[i] != ':',
        n < s.len() ==> s[n] == ':',
    ensures
        first_index(s, ':') == n,
    decreases s.len(),
{
    if n > 0 {
        lemma_first_index(s.skip(1), n - 1);
    }
}

/// The fields of a keypress are what stands between its colons: one, two or three texts
/// without colons, joined by colons, are the fields of what they make.
pub proof fn law_fields_stand_between_colons(secs: Seq<char>, key: Seq<char>, hold: Seq<char>)
    requires
        !secs.contains(':'),
        !key.contains(':'),
        !hold.contains(':'),
    ensures
        fields_of(secs) == (FieldTexts { secs, key: None, hold: None }),
        fields_of(secs + ":"@ + key) == (FieldTexts { secs, key: Some(key), hold: None }),
        fields_of(secs + ":"@ + (key + ":"@ + hold)) == (FieldTexts {
            secs,
            key: Some(key),
            hold: Some(hold),
        }),
{
    lemma_head_tail(secs, key);
    lemma_head_tail(secs, key + ":"@ + hold);
    lemma_head_tail(key, hold);
    lemma_head_tail(hold, hold);
}

/// Whatever stands behind a third colon changes nothing.
pub proof fn law_surplus_fields_are_dropped(
    secs: Seq<char>,
    key: Seq<char>,
    hold: Seq<char>,
    surplus: Seq<char>,
)
    requires
        !secs.contains(':'),
        !key.contains(':'),
        !hold.contains(':'),
    ensures
        fields_of(secs + ":"@ + (key + ":"@ + (hold + ":"@ + surplus))) == fields_of(
            secs + ":"@ + (key + ":"@ + hold),
        ),
{
    law_fields_stand_between_colons(secs, key, hold);
    lemma_head_tail(secs, key + ":"@ + (hold + ":"@ + surplus));
    lemma_head_tail(key, hold + ":"@ + surplus);
    lemma_head_tail(hold, surplus);
}

/// The case of a key's letters does not matter.
pub proof fn law_key_case_is_ignored(a: Seq<char>, b: Seq<char>)
    requires
        lowered(a) == lowered(b),
    ensures
        scancode(a) == scancode(b),
{
}

/// Every scancode can be given as a number: its hexadecimal form of any width, alone or
/// behind `0x`, means it.
pub proof fn law_scancode_reads_back(code: u8, width: nat)
    ensures
        scancode(hex_text(code as nat, width)) == Ok::<u8, HexError>(code),
        scancode("0x"@ + hex_text(code as nat, width)) == Ok::<u8, HexError>(code),
{
    let s = hex_text(code as nat, width);
    lemma_hex_text_reads_back(code as nat, width);
    lemma_lowered_value(s);
    lemma_trimmed_0x(lowered(s));
    lemma_digits_are_number(lowered(s), 0xFF);
    lemma_digits_name_no_key(lowered(s));
    assert(lowered("0x"@ + s) =~= "0x"@ + lowered(s)) by {
        reveal_strlit("0x");
    }
}

/// No name of a key consists of hexadecimal digits, with or without `0x` before them.
proof fn lemma_digits_name_no_key(s: Seq<char>)
    requires
        all_hex(s),
    ensures
        named_key(s) is None,
        named_key("0x"@ + s) is None,
{
    reveal_strlit("0x");
    reveal_strlit("return");
    reveal_strlit("enter");
    reveal_strlit("shift");
    reveal_strlit("cmd");
    reveal_strlit("command");
    reveal_strlit("option");
    reveal_strlit("space");
    reveal_strlit("esc");
    reveal_strlit("escape");
    assert(!all_hex("return"@)) by {
        assert("return"@[0] == 'r');
    }
    assert(!all_hex("enter"@)) by {
        assert("enter"@[1] == 'n');
    }
    assert(!all_hex("shift"@)) by {
        assert("shift"@[0] == 's');
    }
    assert(!all_hex("cmd"@)) by {
        assert("cmd"@[1] == 'm');
    }
    assert(!all_hex("command"@)) by {
        assert("command"@[1] == 'o');
    }
    assert(!all_hex("option"@)) by {
        assert("option"@[0] == 'o');
    }
    assert(!all_hex("space"@)) by {
        assert("space"@[0] == 's');
    }
    assert(!all_hex("esc"@)) by {
        assert("esc"@[1] == 's');
    }
    assert(!all_hex("escape"@)) by {
        assert("escape"@[1] == 's');
    }
    assert(("0x"@ + s)[0] == '0');
}

/// Whatever `join_key` gives is made of its parts, whichever key it is: the press time is what
/// SECS reads as, the hold time what HOLD reads as where there is one and the default where
/// there is none. A keypress is refused for the first of SECS, KEY and HOLD that is wrong, and
/// for nothing else.
pub proof fn law_keypress_is_made_of_its_parts<T, E>(
    secs: Result<T, E>,
    key: Option<String>,
    hold: Option<Result<T, E>>,
    default_hold: T,
    r: Result<(T, u8, T), KeyError<E>>,
)
    requires
        call_ensures(join_key::<T, E>, (secs, key, hold, default_hold), r),
    ensures
        secs matches Err(e) ==> r == Err::<(T, u8, T), KeyError<E>>(KeyError::BadSecs(e)),
        secs is Ok && key is None ==> r == Err::<(T, u8, T), KeyError<E>>(KeyError::MissingKey),
        secs is Ok ==> (key matches Some(k) ==> (scancode(k@) matches Err(why) ==> {
            &&& r matches Err(KeyError::UnknownKey(name, w))
            &&& name@ == k@
            &&& w == why
        })),
        secs matches Ok(t) ==> (key matches Some(k) ==> (scancode(k@) matches Ok(code) ==> {
            &&& hold is None ==> r == Ok::<(T, u8, T), KeyError<E>>((t, code, default_hold))
            &&& hold matches Some(Ok(h)) ==> r == Ok::<(T, u8, T), KeyError<E>>((t, code, h))
            &&& hold matches Some(Err(e)) ==> r == Err::<(T, u8, T), KeyError<E>>(
                KeyError::BadHold(e),
            )
        })),
{
    assert(key_press(
        secs,
        match key {
            Some(k) => Some(k@),
            None => None,
        },
        hold,
        default_hold,
        r,
    ));
}

/// Two keypresses that differ in their keys alone have the same times.
pub proof fn law_times_do_not_depend_on_the_key<T, E>(
    secs: Result<T, E>,
    key: Option<String>,
    other_key: Option<String>,
    hold: Option<Result<T, E>>,
    default_hold: T,
    r: Result<(T, u8, T), KeyError<E>>,
    other: Result<(T, u8, T), KeyError<E>>,
)
    requires
        call_ensures(join_key::<T, E>, (secs, key, hold, default_hold), r),
        call_ensures(join_key::<T, E>, (secs, other_key, hold, default_hold), other),
        r is Ok,
        other is Ok,
    ensures
        r->Ok_0.0 == other->Ok_0.0,
        r->Ok_0.2 == other->Ok_0.2,
{
    law_keypress_is_made_of_its_parts(secs, key, hold, default_hold, r);
    law_keypress_is_made_of_its_parts(secs, other_key, hold, default_hold, other);
}

/// Whatever `parse_key` gives for `SECS`, `SECS:KEY`, `SECS:KEY:HOLD` and the last with more
/// behind another colon: the two times as they read and the key's scancode, with the default for
/// a hold time where there is no HOLD; or what is wrong with the first part that is wrong.
pub proof fn law_parsed_key_is_what_is_written<T, E, F: Fn(&str) -> Result<T, E>>(
    spec: &str,
    number: F,
    read: spec_fn(Seq<char>) -> Result<T, E>,
    default_hold: T,
    r: Result<(T, u8, T), KeyError<E>>,
    secs: Seq<char>,
    key: Seq<char>,
    hold: Seq<char>,
    surplus: Seq<char>,
)
    requires
        call_ensures(parse_key::<T, E, F>, (spec, number, default_hold), r),
        forall|s: &str, x: Result<T, E>| #[trigger]
            call_ensures(number, (s,), x) ==> x == read(s@),
        !secs.contains(':'),
        !key.contains(':'),
        !hold.contains(':'),
        ({
            ||| spec@ == secs
            ||| spec@ == secs + ":"@ + key
            ||| spec@ == secs + ":"@ + (key + ":"@ + hold)
            ||| spec@ == secs + ":"@ + (key + ":"@ + (hold + ":"@ + surplus))
        }),
    ensures
        read(secs) matches Err(e) ==> r == Err::<(T, u8, T), KeyError<E>>(KeyError::BadSecs(e)),
        read(secs) is Ok && spec@ == secs ==> r == Err::<(T, u8, T), KeyError<E>>(
            KeyError::MissingKey,
        ),
        read(secs) is Ok && spec@ != secs ==> (scancode(key) matches Err(why) ==> {
            &&& r matches Err(KeyError::UnknownKey(name, w))
            &&& name@ == key
            &&& w == why
        }),
        read(secs) matches Ok(t) ==> (scancode(key) matches Ok(code) ==> {
            &&& spec@ == secs + ":"@ + key ==> r == Ok::<(T, u8, T), KeyError<E>>(
                (t, code, default_hold),
            )
            &&& spec@ == secs + ":"@ + (key + ":"@ + hold) || spec@ == secs + ":"@ + (key + ":"@ + (
            hold + ":"@ + surplus)) ==> match read(hold) {
                Ok(h) => r == Ok::<(T, u8, T), KeyError<E>>((t, code, h)),
                Err(e) => r == Err::<(T, u8, T), KeyError<E>>(KeyError::BadHold(e)),
            }
        }),
{
    law_fields_stand_between_colons(secs, key, hold);
    law_surplus_fields_are_dropped(secs, key, hold, surplus);
    let fields = fields_of(spec@);
    let (x, y) = choose|x: Result<T, E>, y: Option<Result<T, E>>|
        #![trigger key_press(x, fields.key, y, default_hold, r)]
        reads_as(number, fields.secs, x) && maybe_reads_as(number, fields.hold, y) && key_press(
            x,
            fields.key,
            y,
            default_hold,
            r,
        );
    assert(reads_as(number, fields.secs, x) && maybe_reads_as(number, fields.hold, y));
    assert(key_press(x, fields.key, y, default_hold, r));
    assert(x == read(secs));
}

/// Whether `name` is one of the names that keys have.
pub open spec fn names_a_key(name: Seq<char>) -> bool {
    seq![
        "return"@,
        "enter"@,
        "shift"@,
        "cmd"@,
        "command"@,
        "option"@,
        "space"@,
        "esc"@,
        "escape"@,
    ].contains(name)
}

/// Whatever `key_code` gives for a name, in any case, is the code of that key on the keyboard.
/// `0x` before a key makes it a number, as does any text that is no name: `0x` is dropped as
/// often as it stands there, and what is left is read as a number of eight bits.
pub proof fn law_keys_have_their_codes(key: &str, r: Result<u8, HexError>)
    requires
        call_ensures(key_code, (key,), r),
    ensures
        lowered(key@) == "return"@ ==> r == Ok::<u8, HexError>(0x24),
        lowered(key@) == "enter"@ ==> r == Ok::<u8, HexError>(0x4C),
        lowered(key@) == "shift"@ ==> r == Ok::<u8, HexError>(0x38),
        lowered(key@) == "cmd"@ ==> r == Ok::<u8, HexError>(0x37),
        lowered(key@) == "command"@ ==> r == Ok::<u8, HexError>(0x37),
        lowered(key@) == "option"@ ==> r == Ok::<u8, HexError>(0x3A),
        lowered(key@) == "space"@ ==> r == Ok::<u8, HexError>(0x31),
        lowered(key@) == "esc"@ ==> r == Ok::<u8, HexError>(0x35),
        lowered(key@) == "escape"@ ==> r == Ok::<u8, HexError>(0x35),
        !names_a_key(lowered(key@)) ==> match hex_number(trimmed(lowered(key@), "0x"@), 255) {
            Ok(v) => v <= 255 && r == Ok::<u8, HexError>(v as u8),
            Err(e) => r == Err::<u8, HexError>(e),
        },
        scancode(key@) == r,
{
    assert(r == scancode(key@));
    lemma_names(lowered(key@));
    reveal_strlit("return");
    reveal_strlit("enter");
    reveal_strlit("shift");
    reveal_strlit("cmd");
    reveal_strlit("command");
    reveal_strlit("option");
    reveal_strlit("space");
    reveal_strlit("esc");
    reveal_strlit("escape");
    assert("return"@[0] == 'r' && "option"@[0] == 'o' && "escape"@[0] == 'e');
    assert("enter"@[0] == 'e' && "shift"@[1] == 'h' && "space"@[1] == 'p');
    assert("enter"@[1] == 'n' && "cmd"@[0] == 'c' && "esc"@[0] == 'e');
}

/// One more `0x` before a text changes nothing, but that a name behind it is no name.
pub proof fn law_prefix_of_a_scancode(key: Seq<char>)
    ensures
        !names_a_key(lowered(key)) ==> scancode("0x"@ + key) == scancode(key),
        names_a_key(lowered(key)) ==> scancode("0x"@ + key) == Err::<u8, HexError>(
            HexError::InvalidDigit,
        ),
{
    reveal_strlit("0x");
    let low = lowered(key);
    let all = "0x"@ + key;
    assert(lowered(all) =~= "0x"@ + low);
    assert(lowered(all)[0] == '0');
    lemma_names(low);
    lemma_names(lowered(all));
    law_trimming(low, "0x"@);
    if names_a_key(low) {
        if "0x"@.is_prefix_of(low) {
            assert(low.subrange(0, 2)[0] == low[0]);
        }
        lemma_no_number(low);
    }
}

/// The names of keys are those that have a code, and no name starts as a number does.
proof fn lemma_names(name: Seq<char>)
    ensures
        names_a_key(name) <==> named_key(name) is Some,
        names_a_key(name) ==> {
            &&& name.len() >= 2
            &&& name[0] != '0' && name[0] != '+'
            &&& !is_hex_digit(name[0]) || !is_hex_digit(name[1])
        },
{
    let names = seq![
        "return"@,
        "enter"@,
        "shift"@,
        "cmd"@,
        "command"@,
        "option"@,
        "space"@,
        "esc"@,
        "escape"@,
    ];
    reveal_strlit("return");
    reveal_strlit("enter");
    reveal_strlit("shift");
    reveal_strlit("cmd");
    reveal_strlit("command");
    reveal_strlit("option");
    reveal_strlit("space");
    reveal_strlit("esc");
    reveal_strlit("escape");
    assert(names[0] == "return"@ && names[1] == "enter"@ && names[2] == "shift"@);
    assert(names[3] == "cmd"@ && names[4] == "command"@ && names[5] == "option"@);
    assert(names[6] == "space"@ && names[7] == "esc"@ && names[8] == "escape"@);
}

/// A text whose first or second character is no digit is no number, if no sign comes first.
proof fn lemma_no_number(s: Seq<char>)
    requires
        s.len() >= 2,
        s[0] != '+',
        !is_hex_digit(s[0]) || !is_hex_digit(s[1]),
    ensures
        hex_number(s, 0xFF) == Err::<nat, HexError>(HexError::InvalidDigit),
{
    assert(!all_hex(s));
    assert forall|k: int| 0 <= k <= s.len() && #[trigger] all_hex(s.take(k)) implies hex_value(
        s.take(k),
    ) <= 0xFF by {
        if k >= 2 {
            assert(is_hex_digit(s.take(k)[0]));
            assert(is_hex_digit(s.take(k)[1]));
        } else {
            reveal_with_fuel(hex_value, 2);
        }
    }
    assert(!hex_exceeds(s, 0xFF));
}

/// Whatever is said of an error quotes the keypress and names the part of it that is wrong.
pub proof fn law_message_names_the_part<E>(e: KeyError<E>, spec: &str, text: String)
    requires
        call_ensures(KeyError::<E>::message, (&e, spec), text),
    ensures
        e is BadSecs ==> text@ == "--key '"@ + spec@ + "': bad SECS"@,
        e is MissingKey ==> text@ == "--key '"@ + spec@ + "': expected SECS:KEY"@,
        e matches KeyError::UnknownKey(key, _) ==> text@ == "--key '"@ + spec@ + "': unknown key '"@
            + key@ + "'"@,
        e is BadHold ==> text@ == "--key '"@ + spec@ + "': bad HOLD"@,
{
    assert(text@ == e.words(spec@));
}

} // verus!
