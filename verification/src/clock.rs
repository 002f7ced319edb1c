//! The pinned real-time clock.

use chrono::format::ParseErrorKind;
use chrono::{Datelike, NaiveDateTime, Timelike};
use vstd::prelude::*;
use crate::text::{dec_text, zeros};

verus! {

/// How the command line writes the time to pin the clock to.
pub const DATE_FORMAT: &'static str = "%Y-%m-%d %H:%M:%S";

/// A date and a time of day. A leap second is second 59 with a billion nanoseconds.
#[derive(Clone, Copy, Debug, PartialEq, Eq, Structural)]
pub struct DateTime {
    pub year: i32,
    pub month: u32,
    pub day: u32,
    pub hour: u32,
    pub minute: u32,
    pub second: u32,
    pub nanosecond: u32,
}

/// Why a text is no date and time.
#[derive(Clone, Copy, Debug, PartialEq, Eq, Structural)]
pub enum DateFault {
    OutOfRange,
    Impossible,
    NotEnough,
    Invalid,
    TooShort,
    TooLong,
    BadFormat,
    Other,
}

/// How many days the month has.
pub open spec fn days_in_month(year: int, month: int) -> int {
    if month == 2 {
        if year % 4 == 0 && (year % 100 != 0 || year % 400 == 0) {
            29
        } else {
            28
        }
    } else if month == 4 || month == 6 || month == 9 || month == 11 {
        30
    } else {
        31
    }
}

/// `v` in decimal with at least `width` digits.
pub open spec fn dec_padded(v: nat, width: int) -> Seq<char> {
    zeros(width - dec_text(v).len()) + dec_text(v)
}

impl DateTime {
    /// Whether there is such a date and such a time.
    pub open spec fn exists_at_all(self) -> bool {
        &&& 1 <= self.month <= 12
        &&& 1 <= self.day <= days_in_month(self.year as int, self.month as int)
        &&& self.hour < 24
        &&& self.minute < 60
        &&& self.second < 60
        &&& self.nanosecond == 0 || (self.nanosecond == 1_000_000_000 && self.second == 59)
    }

    /// Whether it can be written with four digits for the year and whole seconds.
    pub open spec fn is_plain(self) -> bool {
        self.exists_at_all() && 0 <= self.year <= 9999 && self.nanosecond == 0
    }

    /// "YYYY-MM-DD HH:MM:SS"
    pub open spec fn written(self) -> Seq<char> {
        dec_padded(self.year as nat, 4) + "-"@ + dec_padded(self.month as nat, 2) + "-"@
            + dec_padded(self.day as nat, 2) + " "@ + dec_padded(self.hour as nat, 2) + ":"@
            + dec_padded(self.minute as nat, 2) + ":"@ + dec_padded(self.second as nat, 2)
    }
}

/// Whether `r` is right as a reading of `text` where `text` writes a plain date and time.
pub open spec fn plain_dates_read_back(text: Seq<char>, r: Result<DateTime, DateFault>) -> bool {
    forall|t: DateTime| t.is_plain() && text == #[trigger] t.written() ==> r == Ok::<
        DateTime,
        DateFault,
    >(t)
}

/// What chrono reads `text` as under `format`.
pub uninterp spec fn chrono_reading(text: Seq<char>, format: Seq<char>) -> Result<
    DateTime,
    DateFault,
>;

/// `chrono::NaiveDateTime::parse_from_str`, under the format of this library. Its result is a
/// function of the text, which gets a name here. Of that result it is claimed that what is
/// read is a date and a time that exist, and that a plain date and time, written in full, is
/// read as itself. Nothing is claimed of which other texts are read, and as what.
#[verifier::external_body]
fn chrono_parse(text: &str, format: &str) -> (r: Result<DateTime, DateFault>)
    requires
        format@ == DATE_FORMAT@,
    ensures
        r == chrono_reading(text@, format@),
        r matches Ok(t) ==> t.exists_at_all(),
        plain_dates_read_back(text@, r),
{
    match NaiveDateTime::parse_from_str(text, format) {
        Ok(t) => Ok(DateTime { year: t.year(), month: t.month(), day: t.day(), hour: t.hour(),
            minute: t.minute(), second: t.second(), nanosecond: t.nanosecond() }),
        Err(e) => Err(match e.kind() {
            ParseErrorKind::OutOfRange => DateFault::OutOfRange,
            ParseErrorKind::Impossible => DateFault::Impossible,
            ParseErrorKind::NotEnough => DateFault::NotEnough,
            ParseErrorKind::Invalid => DateFault::Invalid,
            ParseErrorKind::TooShort => DateFault::TooShort,
            ParseErrorKind::TooLong => DateFault::TooLong,
            ParseErrorKind::BadFormat => DateFault::BadFormat,
            _ => DateFault::Other,
        }),
    }
}

/// Reads the time to pin the clock to.
pub fn parse_date(text: &str) -> (r: Result<DateTime, DateFault>)
    ensures
        r == chrono_reading(text@, DATE_FORMAT@),
        r matches Ok(t) ==> t.exists_at_all(),
        plain_dates_read_back(text@, r),
{
    chrono_parse(text, DATE_FORMAT)
}

impl DateFault {
    /// What to say of this fault.
    pub open spec fn words(self) -> Seq<char> {
        match self {
            DateFault::OutOfRange => "input is out of range"@,
            DateFault::Impossible => "no possible date and time matching input"@,
            DateFault::NotEnough => "input is not enough for unique date and time"@,
            DateFault::Invalid => "input contains invalid characters"@,
            DateFault::TooShort => "premature end of input"@,
            DateFault::TooLong => "trailing input"@,
            DateFault::BadFormat => "bad or unsupported format string"@,
            DateFault::Other => "unreadable date and time"@,
        }
    }

    /// Says what is wrong.
    pub fn message(&self) -> (text: &'static str)
        ensures
            text@ == self.words(),
    {
        match self {
            DateFault::OutOfRange => "input is out of range",
            DateFault::Impossible => "no possible date and time matching input",
            DateFault::NotEnough => "input is not enough for unique date and time",
            DateFault::Invalid => "input contains invalid characters",
            DateFault::TooShort => "premature end of input",
            DateFault::TooLong => "trailing input",
            DateFault::BadFormat => "bad or unsupported format string",
            DateFault::Other => "unreadable date and time",
        }
    }
}

/// The number that the decimal digits `s` write.
spec fn dec_value(s: Seq<char>) -> nat
    decreases s.len(),
{
    if s.len() == 0 {
        0
    } else {
        dec_value(s.drop_last()) * 10 + (s.last() as int - '0' as int) as nat
    }
}

proof fn lemma_dec_text_reads_back(v: nat)
    ensures
        dec_value(dec_text(v)) == v,
    decreases v,
{
    let s = dec_text(v);
    if v < 10 {
        assert(s.drop_last().len() == 0);
        assert(dec_value(s.drop_last()) == 0);
    } else {
        lemma_dec_text_reads_back(v / 10);
        assert(s.drop_last() =~= dec_text(v / 10));
    }
}

proof fn lemma_zeros_add_nothing(n: int, s: Seq<char>)
    ensures
        dec_value(zeros(n) + s) == dec_value(s),
    decreases n, s.len(),
{
    if s.len() == 0 {
        if n <= 0 {
            assert(zeros(n) + s =~= s);
        } else {
            assert((zeros(n) + s).drop_last() =~= zeros(n - 1) + s);
            lemma_zeros_add_nothing(n - 1, s);
        }
    } else {
        assert((zeros(n) + s).drop_last() =~= zeros(n) + s.drop_last());
        lemma_zeros_add_nothing(n, s.drop_last());
    }
}

/// Two digits write a number below a hundred, four one below ten thousand.
proof fn lemma_dec_padded(v: nat)
    ensures
        v < 100 ==> dec_padded(v, 2).len() == 2,
        v < 10000 ==> dec_padded(v, 4).len() == 4,
        dec_value(dec_padded(v, 2)) == v,
        dec_value(dec_padded(v, 4)) == v,
{
    reveal_with_fuel(dec_text, 4);
    lemma_dec_text_reads_back(v);
    lemma_zeros_add_nothing(2 - dec_text(v).len(), dec_text(v));
    lemma_zeros_add_nothing(4 - dec_text(v).len(), dec_text(v));
}

/// Two plain dates and times that are written alike are the same.
pub proof fn law_dates_are_told_apart(a: DateTime, b: DateTime)
    requires
        a.is_plain(),
        b.is_plain(),
        a.written() == b.written(),
    ensures
        a == b,
{
    reveal_strlit("-");
    reveal_strlit(" ");
    reveal_strlit(":");
    lemma_dec_padded(a.year as nat);
    lemma_dec_padded(b.year as nat);
    lemma_dec_padded(a.month as nat);
    lemma_dec_padded(b.month as nat);
    lemma_dec_padded(a.day as nat);
    lemma_dec_padded(b.day as nat);
    lemma_dec_padded(a.hour as nat);
    lemma_dec_padded(b.hour as nat);
    lemma_dec_padded(a.minute as nat);
    lemma_dec_padded(b.minute as nat);
    lemma_dec_padded(a.second as nat);
    lemma_dec_padded(b.second as nat);
    lemma_written_parts(a);
    lemma_written_parts(b);
}

proof fn lemma_written_parts(t: DateTime)
    requires
        t.is_plain(),
    ensures
        t.written().subrange(0, 4) == dec_padded(t.year as nat, 4),
        t.written().subrange(5, 7) == dec_padded(t.month as nat, 2),
        t.written().subrange(8, 10) == dec_padded(t.day as nat, 2),
        t.written().subrange(11, 13) == dec_padded(t.hour as nat, 2),
        t.written().subrange(14, 16) == dec_padded(t.minute as nat, 2),
        t.written().subrange(17, 19) == dec_padded(t.second as nat, 2),
{
    reveal_strlit("-");
    reveal_strlit(" ");
    reveal_strlit(":");
    lemma_dec_padded(t.year as nat);
    lemma_dec_padded(t.month as nat);
    lemma_dec_padded(t.day as nat);
    lemma_dec_padded(t.hour as nat);
    lemma_dec_padded(t.minute as nat);
    lemma_dec_padded(t.second as nat);
    let w = t.written();
    assert(w.subrange(0, 4) =~= dec_padded(t.year as nat, 4));
    assert(w.subrange(5, 7) =~= dec_padded(t.month as nat, 2));
    assert(w.subrange(8, 10) =~= dec_padded(t.day as nat, 2));
    assert(w.subrange(11, 13) =~= dec_padded(t.hour as nat, 2));
    assert(w.subrange(14, 16) =~= dec_padded(t.minute as nat, 2));
    assert(w.subrange(17, 19) =~= dec_padded(t.second as nat, 2));
}

/// Whatever `parse_date` gives for a plain date and time, written in full, is that date and time.
pub proof fn law_date_is_the_one_written(
    text: &str,
    t: DateTime,
    r: Result<DateTime, DateFault>,
)
    requires
        call_ensures(parse_date, (text,), r),
        t.is_plain(),
        text@ == t.written(),
    ensures
        r == Ok::<DateTime, DateFault>(t),
{
    assert(plain_dates_read_back(text@, r));
}

/// Whatever `parse_date` gives is what chrono reads with the year, the month and the day between
/// hyphens, a space, and the hour, the minute and the second between colons.
pub proof fn law_date_has_its_format(text: &str, r: Result<DateTime, DateFault>)
    requires
        call_ensures(parse_date, (text,), r),
    ensures
        r == chrono_reading(text@, "%Y-%m-%d %H:%M:%S"@),
{
}

/// A plain date and time is written digit by digit: four for the year, two for each of the
/// others, with separators between.
pub proof fn law_date_is_written_in_full(t: DateTime)
    requires
        t.is_plain(),
    ensures
        t.written() == seq![
            "0123456789"@[t.year as int / 1000],
            "0123456789"@[t.year as int / 100 % 10],
            "0123456789"@[t.year as int / 10 % 10],
            "0123456789"@[t.year as int % 10],
            '-',
            "0123456789"@[t.month as int / 10],
            "0123456789"@[t.month as int % 10],
            '-',
            "0123456789"@[t.day as int / 10],
            "0123456789"@[t.day as int % 10],
            ' ',
            "0123456789"@[t.hour as int / 10],
            "0123456789"@[t.hour as int % 10],
            ':',
            "0123456789"@[t.minute as int / 10],
            "0123456789"@[t.minute as int % 10],
            ':',
            "0123456789"@[t.second as int / 10],
            "0123456789"@[t.second as int % 10],
        ],
{
    reveal_strlit("-");
    reveal_strlit(" ");
    reveal_strlit(":");
    lemma_four_digits(t.year as nat);
    lemma_two_digits(t.month as nat);
    lemma_two_digits(t.day as nat);
    lemma_two_digits(t.hour as nat);
    lemma_two_digits(t.minute as nat);
    lemma_two_digits(t.second as nat);
}

proof fn lemma_two_digits(v: nat)
    requires
        v < 100,
    ensures
        dec_padded(v, 2) == seq!["0123456789"@[v as int / 10], "0123456789"@[v as int % 10]],
{
    reveal_strlit("0123456789");
    reveal_with_fuel(dec_text, 2);
    assert(dec_padded(v, 2) =~= seq!["0123456789"@[v as int / 10], "0123456789"@[v as int % 10]]);
}

proof fn lemma_four_digits(v: nat)
    requires
        v < 10000,
    ensures
        dec_padded(v, 4) == seq![
            "0123456789"@[v as int / 1000],
            "0123456789"@[v as int / 100 % 10],
            "0123456789"@[v as int / 10 % 10],
            "0123456789"@[v as int % 10],
        ],
{
    reveal_strlit("0123456789");
    reveal_with_fuel(dec_text, 4);
    assert(v as int / 10 / 10 == v as int / 100 && v as int / 100 / 10 == v as int / 1000);
    assert(dec_padded(v, 4) =~= seq![
        "0123456789"@[v as int / 1000],
        "0123456789"@[v as int / 100 % 10],
        "0123456789"@[v as int / 10 % 10],
        "0123456789"@[v as int % 10],
    ]);
}

/// Whatever is said of a fault names it, and it alone.
pub proof fn law_date_fault_is_named(fault: DateFault, text: &'static str)
    requires
        call_ensures(DateFault::message, (&fault,), text),
    ensures
        fault is OutOfRange <==> text@ == "input is out of range"@,
        fault is Impossible <==> text@ == "no possible date and time matching input"@,
        fault is NotEnough <==> text@ == "input is not enough for unique date and time"@,
        fault is Invalid <==> text@ == "input contains invalid characters"@,
        fault is TooShort <==> text@ == "premature end of input"@,
        fault is TooLong <==> text@ == "trailing input"@,
        fault is BadFormat <==> text@ == "bad or unsupported format string"@,
        fault is Other <==> text@ == "unreadable date and time"@,
{
    assert(text@ == fault.words());
    reveal_strlit("input is out of range");
    reveal_strlit("no possible date and time matching input");
    reveal_strlit("input is not enough for unique date and time");
    reveal_strlit("input contains invalid characters");
    reveal_strlit("premature end of input");
    reveal_strlit("trailing input");
    reveal_strlit("bad or unsupported format string");
    reveal_strlit("unreadable date and time");
}

} // verus!
