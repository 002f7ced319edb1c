//! The registers of the CPU, and how the log shows them.

use vstd::prelude::*;
use crate::hexnum::lemma_hex_text_reads_back;
use crate::text::{
    hex_text, lemma_exact_widths, lemma_numbers_hold_digits, lemma_occurrences_add,
    lemma_occurrences_upto, occurrences, occurrences_upto, push_hex,
};

verus! {

/// The registers that the runner shows. `a[7]` is the stack pointer in use.
#[derive(Clone, Copy, Debug, PartialEq, Eq)]
pub struct Regs {
    pub pc: u32,
    pub sr: u16,
    pub d: [u32; 8],
    pub a: [u32; 8],
}

/// What the log shows of `regs`.
pub open spec fn summary(regs: Regs) -> Seq<char> {
    "pc=$"@ + hex_text(regs.pc as nat, 8) + " sr=$"@ + hex_text(regs.sr as nat, 4) + " d0=$"@
        + hex_text(regs.d@[0] as nat, 8) + " a0=$"@ + hex_text(regs.a@[0] as nat, 8) + " a6=$"@
        + hex_text(regs.a@[6] as nat, 8) + " a7=$"@ + hex_text(regs.a@[7] as nat, 8)
}

/// One-line register summary for the log.
pub fn regs_summary(regs: Option<&Regs>) -> (line: String)
    ensures
        match regs {
            None => line@ == "pc=?"@,
            Some(r) => line@ == summary(*r),
        },
{
    let mut line = String::new();
    match regs {
        None => {
            line.append("pc=?");
            assert(line@ =~= "pc=?"@);
        },
        Some(r) => {
            line.append("pc=$");
            push_hex(&mut line, r.pc as u64, 8);
            line.append(" sr=$");
            push_hex(&mut line, r.sr as u64, 4);
            line.append(" d0=$");
            push_hex(&mut line, r.d[0] as u64, 8);
            line.append(" a0=$");
            push_hex(&mut line, r.a[0] as u64, 8);
            line.append(" a6=$");
            push_hex(&mut line, r.a[6] as u64, 8);
            line.append(" a7=$");
            push_hex(&mut line, r.a[7] as u64, 8);
            assert(line@ =~= summary(*r));
        },
    }
    line
}

/// The summary of registers is one line.
pub proof fn law_summary_is_one_line(regs: Regs)
    ensures
        occurrences(summary(regs), '\n') == 0,
        occurrences("pc=?"@, '\n') == 0,
{
    reveal_strlit("pc=?");
    lemma_occurrences_upto("pc=?"@, '\n', 4);
    assert("pc=?"@.take(4) =~= "pc=?"@);
    reveal_strlit("pc=$");
    lemma_occurrences_upto("pc=$"@, '\n', 4);
    assert("pc=$"@.take(4) =~= "pc=$"@);
    reveal_strlit(" sr=$");
    lemma_occurrences_upto(" sr=$"@, '\n', 5);
    assert(" sr=$"@.take(5) =~= " sr=$"@);
    reveal_strlit(" d0=$");
    lemma_occurrences_upto(" d0=$"@, '\n', 5);
    assert(" d0=$"@.take(5) =~= " d0=$"@);
    reveal_strlit(" a0=$");
    lemma_occurrences_upto(" a0=$"@, '\n', 5);
    assert(" a0=$"@.take(5) =~= " a0=$"@);
    reveal_strlit(" a6=$");
    lemma_occurrences_upto(" a6=$"@, '\n', 5);
    assert(" a6=$"@.take(5) =~= " a6=$"@);
    reveal_strlit(" a7=$");
    lemma_occurrences_upto(" a7=$"@, '\n', 5);
    assert(" a7=$"@.take(5) =~= " a7=$"@);
    reveal_with_fuel(occurrences_upto, 6);
    lemma_numbers_hold_digits(regs.pc as nat, 8, '\n');
    lemma_numbers_hold_digits(regs.sr as nat, 4, '\n');
    lemma_numbers_hold_digits(regs.d@[0] as nat, 8, '\n');
    lemma_numbers_hold_digits(regs.a@[0] as nat, 8, '\n');
    lemma_numbers_hold_digits(regs.a@[6] as nat, 8, '\n');
    lemma_numbers_hold_digits(regs.a@[7] as nat, 8, '\n');
    let t1 = "pc=$"@;
    lemma_occurrences_add(t1, hex_text(regs.pc as nat, 8), '\n');
    let t2 = t1 + hex_text(regs.pc as nat, 8);
    lemma_occurrences_add(t2, " sr=$"@, '\n');
    let t3 = t2 + " sr=$"@;
    lemma_occurrences_add(t3, hex_text(regs.sr as nat, 4), '\n');
    let t4 = t3 + hex_text(regs.sr as nat, 4);
    lemma_occurrences_add(t4, " d0=$"@, '\n');
    let t5 = t4 + " d0=$"@;
    lemma_occurrences_add(t5, hex_text(regs.d@[0] as nat, 8), '\n');
    let t6 = t5 + hex_text(regs.d@[0] as nat, 8);
    lemma_occurrences_add(t6, " a0=$"@, '\n');
    let t7 = t6 + " a0=$"@;
    lemma_occurrences_add(t7, hex_text(regs.a@[0] as nat, 8), '\n');
    let t8 = t7 + hex_text(regs.a@[0] as nat, 8);
    lemma_occurrences_add(t8, " a6=$"@, '\n');
    let t9 = t8 + " a6=$"@;
    lemma_occurrences_add(t9, hex_text(regs.a@[6] as nat, 8), '\n');
    let t10 = t9 + hex_text(regs.a@[6] as nat, 8);
    lemma_occurrences_add(t10, " a7=$"@, '\n');
    let t11 = t10 + " a7=$"@;
    lemma_occurrences_add(t11, hex_text(regs.a@[7] as nat, 8), '\n');
}

/// Whatever the summary of registers is, it has its places: each of the six registers stands
/// behind its own name, at full width. Without registers, the program counter is unknown.
pub proof fn law_summary_shows_the_registers(regs: Option<&Regs>, line: String)
    requires
        call_ensures(regs_summary, (regs,), line),
    ensures
        regs is None ==> line@ == "pc=?"@,
        regs matches Some(r) ==> {
            &&& line@.len() == 73
            &&& line@.subrange(0, 4) == "pc=$"@
            &&& line@.subrange(4, 12) == hex_text(r.pc as nat, 8)
            &&& line@.subrange(12, 17) == " sr=$"@
            &&& line@.subrange(17, 21) == hex_text(r.sr as nat, 4)
            &&& line@.subrange(21, 26) == " d0=$"@
            &&& line@.subrange(26, 34) == hex_text(r.d@[0] as nat, 8)
            &&& line@.subrange(34, 39) == " a0=$"@
            &&& line@.subrange(39, 47) == hex_text(r.a@[0] as nat, 8)
            &&& line@.subrange(47, 52) == " a6=$"@
            &&& line@.subrange(52, 60) == hex_text(r.a@[6] as nat, 8)
            &&& line@.subrange(60, 65) == " a7=$"@
            &&& line@.subrange(65, 73) == hex_text(r.a@[7] as nat, 8)
        },
{
    lemma_exact_widths();
    reveal_strlit("pc=$");
    reveal_strlit(" sr=$");
    reveal_strlit(" d0=$");
    reveal_strlit(" a0=$");
    reveal_strlit(" a6=$");
    reveal_strlit(" a7=$");
    match regs {
        None => {},
        Some(r) => {
            assert(line@ == summary(*r));
            assert(hex_text(r.pc as nat, 8).len() == 8);
            assert(hex_text(r.sr as nat, 4).len() == 4);
            assert(hex_text(r.d@[0] as nat, 8).len() == 8);
            assert(hex_text(r.a@[0] as nat, 8).len() == 8);
            assert(hex_text(r.a@[6] as nat, 8).len() == 8);
            assert(hex_text(r.a@[7] as nat, 8).len() == 8);
        },
    }
}

/// Two summaries are alike only where all that they show is.
pub proof fn law_summary_tells_registers_apart(
    regs: &Regs,
    other: &Regs,
    line: String,
    other_line: String,
)
    requires
        call_ensures(regs_summary, (Some(regs),), line),
        call_ensures(regs_summary, (Some(other),), other_line),
        line@ == other_line@,
    ensures
        regs.pc == other.pc,
        regs.sr == other.sr,
        regs.d@[0] == other.d@[0],
        regs.a@[0] == other.a@[0],
        regs.a@[6] == other.a@[6],
        regs.a@[7] == other.a@[7],
{
    law_summary_shows_the_registers(Some(regs), line);
    law_summary_shows_the_registers(Some(other), other_line);
    lemma_hex_text_reads_back(regs.pc as nat, 8);
    lemma_hex_text_reads_back(other.pc as nat, 8);
    lemma_hex_text_reads_back(regs.sr as nat, 4);
    lemma_hex_text_reads_back(other.sr as nat, 4);
    lemma_hex_text_reads_back(regs.d@[0] as nat, 8);
    lemma_hex_text_reads_back(other.d@[0] as nat, 8);
    lemma_hex_text_reads_back(regs.a@[0] as nat, 8);
    lemma_hex_text_reads_back(other.a@[0] as nat, 8);
    lemma_hex_text_reads_back(regs.a@[6] as nat, 8);
    lemma_hex_text_reads_back(other.a@[6] as nat, 8);
    lemma_hex_text_reads_back(regs.a@[7] as nat, 8);
    lemma_hex_text_reads_back(other.a@[7] as nat, 8);
}

} // verus!
