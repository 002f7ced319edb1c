//! What the CPU did last: instructions and A-line traps, and the files that list them.

use vstd::prelude::*;
use crate::regs::Regs;
use crate::text::{
    dec_text, hex_text, law_dec_text_is_the_number, law_hex_text_is_the_number, lemma_exact_widths,
    lemma_no_occurrence, lemma_numbers_hold_digits, lemma_occurrences_add, lemma_occurrences_upto,
    occurrences, occurrences_upto, push_dec, push_hex,
};
use crate::vectors::{lemma_label_is_one_line, vector_label, vector_name};

verus! {

/// An instruction that the CPU ran.
pub struct Instruction {
    pub pc: u32,
    /// The words it was read from
    pub raw: Vec<u8>,
    /// How many cycles it took
    pub cycles: u64,
    /// Registers before it ran, where they were recorded
    pub regs: Option<Regs>,
    /// Its disassembly, if it has one
    pub disassembly: Option<String>,
}

/// An entry of the instruction history.
pub enum HistoryEntry {
    Instruction(Instruction),
    Exception { vector: u32, cycles: u64 },
    Pagefault { address: u32, write: bool },
}

/// An A-line trap that the CPU took.
#[derive(Clone, Copy, Debug, PartialEq, Eq, Structural)]
pub struct TrapEntry {
    pub pc: u32,
    pub trap: u16,
    pub cycles: u64,
}

/// The last `n` items of `s`, or all of them where there are no more.
pub open spec fn last_of<T>(s: Seq<T>, n: nat) -> Seq<T> {
    if n < s.len() {
        s.skip(s.len() - n)
    } else {
        s
    }
}

/// `raw` in hexadecimal, two digits for a byte.
pub open spec fn raw_text(raw: Seq<u8>) -> Seq<char>
    decreases raw.len(),
{
    if raw.len() == 0 {
        seq![]
    } else {
        raw_text(raw.drop_last()) + hex_text(raw.last() as nat, 2)
    }
}

/// `values` in hexadecimal, eight digits for each, each behind a separator.
pub open spec fn columns(values: Seq<u32>) -> Seq<char>
    decreases values.len(),
{
    if values.len() == 0 {
        seq![]
    } else {
        columns(values.drop_last()) + "|"@ + hex_text(values.last() as nat, 8)
    }
}

/// The disassembly that the line of `i` shows.
pub open spec fn shown_disassembly(i: Instruction) -> Seq<char> {
    match i.disassembly {
        Some(text) => text@,
        None => "<invalid>"@,
    }
}

/// The line of the instruction `i`, whose registers are `default` where none were recorded.
pub open spec fn instruction_line(i: Instruction, default: Regs) -> Seq<char> {
    let regs = match i.regs {
        Some(r) => r,
        None => default,
    };
    hex_text(i.pc as nat, 8) + "|"@ + raw_text(i.raw@) + "|"@ + dec_text(i.cycles as nat) + "|"@
        + shown_disassembly(i) + columns(regs.d@) + columns(regs.a@) + "|"@ + hex_text(
        regs.sr as nat,
        4,
    ) + "\n"@
}

/// The line of `entry`.
pub open spec fn entry_line(entry: HistoryEntry, default: Regs) -> Seq<char> {
    match entry {
        HistoryEntry::Instruction(i) => instruction_line(i, default),
        HistoryEntry::Exception { vector, cycles } => "--- exception: "@ + vector_label(vector)
            + " (vector $"@ + hex_text(vector as nat, 3) + ") at cycle "@ + dec_text(cycles as nat)
            + "\n"@,
        HistoryEntry::Pagefault { address, write } => "--- MMU page fault "@ + hex_text(
            address as nat,
            8,
        ) + " ("@ + (if write {
            "write"@
        } else {
            "read"@
        }) + ")\n"@,
    }
}

/// The lines of `entries`.
pub open spec fn entry_lines(entries: Seq<HistoryEntry>, default: Regs) -> Seq<char>
    decreases entries.len(),
{
    if entries.len() == 0 {
        seq![]
    } else {
        entry_lines(entries.drop_last(), default) + entry_line(entries.last(), default)
    }
}

/// The first line of the instruction history.
pub open spec fn history_header() -> Seq<char> {
    "PC|Raw|Cycles|Instruction|D0|D1|D2|D3|D4|D5|D6|D7|A0|A1|A2|A3|A4|A5|A6|A7|SR\n"@
}

/// The listing of the last `last` entries of `history`.
pub open spec fn history_text(history: Seq<HistoryEntry>, last: nat, default: Regs) -> Seq<char> {
    history_header() + entry_lines(last_of(history, last), default)
}

/// The line of the trap `t`.
pub open spec fn trap_line(t: TrapEntry) -> Seq<char> {
    hex_text(t.pc as nat, 8) + "|"@ + hex_text(t.trap as nat, 4) + "|"@ + dec_text(t.cycles as nat)
        + "\n"@
}

/// The lines of `traps`.
pub open spec fn trap_lines(traps: Seq<TrapEntry>) -> Seq<char>
    decreases traps.len(),
{
    if traps.len() == 0 {
        seq![]
    } else {
        trap_lines(traps.drop_last()) + trap_line(traps.last())
    }
}

/// The listing of the last `last` of `traps`.
pub open spec fn traps_text(traps: Seq<TrapEntry>, last: nat) -> Seq<char> {
    "PC|Trap|Cycles\n"@ + trap_lines(last_of(traps, last))
}

/// Appends `raw` in hexadecimal.
fn push_raw(out: &mut String, raw: &Vec<u8>)
    ensures
        final(out)@ == old(out)@ + raw_text(raw@),
{
    let ghost before = out@;
    assert(out@ =~= before + raw_text(raw@.take(0)));
    for i in 0..raw.len()
        invariant
            out@ == before + raw_text(raw@.take(i as int)),
    {
        push_hex(out, raw[i] as u64, 2);
        assert(raw@.take(i + 1).drop_last() =~= raw@.take(i as int));
        assert(out@ =~= before + raw_text(raw@.take(i + 1)));
    }
    assert(raw@.take(raw.len() as int) =~= raw@);
}

/// Appends `values` in hexadecimal, each behind a separator.
fn push_columns(out: &mut String, values: &[u32; 8])
    ensures
        final(out)@ == old(out)@ + columns(values@),
{
    let ghost before = out@;
    assert(out@ =~= before + columns(values@.take(0)));
    for i in 0..8
        invariant
            out@ == before + columns(values@.take(i as int)),
    {
        out.append("|");
        push_hex(out, values[i] as u64, 8);
        assert(values@.take(i + 1).drop_last() =~= values@.take(i as int));
        assert(out@ =~= before + columns(values@.take(i + 1)));
    }
    assert(values@.take(8) =~= values@);
}

/// Appends the line of an instruction.
fn push_instruction(out: &mut String, i: &Instruction, default_regs: &Regs)
    ensures
        final(out)@ == old(out)@ + instruction_line(*i, *default_regs),
{
    let regs = match &i.regs {
        Some(r) => r,
        None => default_regs,
    };
    push_hex(out, i.pc as u64, 8);
    out.append("|");
    push_raw(out, &i.raw);
    out.append("|");
    push_dec(out, i.cycles);
    out.append("|");
    match &i.disassembly {
        Some(text) => out.append(text.as_str()),
        None => out.append("<invalid>"),
    }
    push_columns(out, &regs.d);
    push_columns(out, &regs.a);
    out.append("|");
    push_hex(out, regs.sr as u64, 4);
    out.append("\n");
    assert(out@ =~= old(out)@ + instruction_line(*i, *default_regs));
}

/// Appends the line of an entry.
fn push_entry(out: &mut String, entry: &HistoryEntry, default_regs: &Regs)
    ensures
        final(out)@ == old(out)@ + entry_line(*entry, *default_regs),
{
    match entry {
        HistoryEntry::Instruction(i) => push_instruction(out, i, default_regs),
        HistoryEntry::Exception { vector, cycles } => {
            out.append("--- exception: ");
            out.append(vector_name(*vector));
            out.append(" (vector $");
            push_hex(out, *vector as u64, 3);
            out.append(") at cycle ");
            push_dec(out, *cycles);
            out.append("\n");
            assert(out@ =~= old(out)@ + entry_line(*entry, *default_regs));
        },
        HistoryEntry::Pagefault { address, write } => {
            out.append("--- MMU page fault ");
            push_hex(out, *address as u64, 8);
            out.append(" (");
            out.append(
                if *write {
                    "write"
                } else {
                    "read"
                },
            );
            out.append(")\n");
            assert(out@ =~= old(out)@ + entry_line(*entry, *default_regs));
        },
    }
}

/// Where the last `last` of `len` items begin.
fn start_of_last(len: usize, last: usize) -> (start: usize)
    ensures
        start == if last < len {
            len - last
        } else {
            0
        },
{
    if last < len {
        len - last
    } else {
        0
    }
}

/// Writes the last `last` history entries, pipe-separated. An instruction without recorded
/// registers shows `default_regs`.
pub fn write_history(
    out: &mut String,
    history: &Vec<HistoryEntry>,
    last: usize,
    default_regs: &Regs,
)
    ensures
        final(out)@ == old(out)@ + history_text(history@, last as nat, *default_regs),
{
    out.append("PC|Raw|Cycles|Instruction|D0|D1|D2|D3|D4|D5|D6|D7|A0|A1|A2|A3|A4|A5|A6|A7|SR\n");
    let ghost before = out@;
    let start = start_of_last(history.len(), last);
    let ghost shown = last_of(history@, last as nat);
    assert(shown =~= history@.skip(start as int));
    assert(out@ =~= before + entry_lines(shown.take(0), *default_regs));
    for i in start..history.len()
        invariant
            start <= history.len(),
            shown == history@.skip(start as int),
            out@ == before + entry_lines(shown.take(i - start), *default_regs),
    {
        push_entry(out, &history[i], default_regs);
        assert(shown.take(i + 1 - start).drop_last() =~= shown.take(i - start));
        assert(out@ =~= before + entry_lines(shown.take(i + 1 - start), *default_regs));
    }
    assert(shown.take(shown.len() as int) =~= shown);
    assert(out@ =~= old(out)@ + history_text(history@, last as nat, *default_regs));
}

/// Writes the last `last` A-line traps.
pub fn write_traps(out: &mut String, traps: &Vec<TrapEntry>, last: usize)
    ensures
        final(out)@ == old(out)@ + traps_text(traps@, last as nat),
{
    out.append("PC|Trap|Cycles\n");
    let ghost before = out@;
    let start = start_of_last(traps.len(), last);
    let ghost shown = last_of(traps@, last as nat);
    assert(shown =~= traps@.skip(start as int));
    assert(out@ =~= before + trap_lines(shown.take(0)));
    for i in start..traps.len()
        invariant
            start <= traps.len(),
            shown == traps@.skip(start as int),
            out@ == before + trap_lines(shown.take(i - start)),
    {
        let t = traps[i];
        push_hex(out, t.pc as u64, 8);
        out.append("|");
        push_hex(out, t.trap as u64, 4);
        out.append("|");
        push_dec(out, t.cycles);
        out.append("\n");
        assert(shown.take(i + 1 - start).drop_last() =~= shown.take(i - start));
        assert(out@ =~= before + trap_lines(shown.take(i + 1 - start)));
    }
    assert(shown.take(shown.len() as int) =~= shown);
    assert(out@ =~= old(out)@ + traps_text(traps@, last as nat));
}

proof fn lemma_raw_chars(raw: Seq<u8>, c: char)
    requires
        c < '0' || c > 'F',
    ensures
        occurrences(raw_text(raw), c) == 0,
    decreases raw.len(),
{
    if raw.len() > 0 {
        lemma_raw_chars(raw.drop_last(), c);
        lemma_numbers_hold_digits(raw.last() as nat, 2, c);
        lemma_occurrences_add(raw_text(raw.drop_last()), hex_text(raw.last() as nat, 2), c);
    }
}

proof fn lemma_columns_chars(values: Seq<u32>, c: char)
    requires
        c == '|' || c == '\n',
    ensures
        occurrences(columns(values), c) == if c == '|' {
            values.len()
        } else {
            0
        },
    decreases values.len(),
{
    if values.len() > 0 {
        let rest = columns(values.drop_last());
        lemma_columns_chars(values.drop_last(), c);
        lemma_numbers_hold_digits(values.last() as nat, 8, c);
        lemma_separator(c);
        lemma_occurrences_add(rest, "|"@, c);
        lemma_occurrences_add(rest + "|"@, hex_text(values.last() as nat, 8), c);
    }
}

proof fn lemma_separator(c: char)
    requires
        c == '|' || c == '\n',
    ensures
        occurrences("|"@, c) == if c == '|' {
            1nat
        } else {
            0nat
        },
        occurrences("\n"@, c) == if c == '|' {
            0nat
        } else {
            1nat
        },
{
    reveal_strlit("|");
    reveal_strlit("\n");
    reveal_with_fuel(occurrences, 2);
    assert("|"@.drop_last().len() == 0);
    assert("\n"@.drop_last().len() == 0);
}

proof fn lemma_instruction_line_chars(i: Instruction, default: Regs, c: char)
    requires
        c == '|' || c == '\n',
    ensures
        occurrences(instruction_line(i, default), c) == occurrences(shown_disassembly(i), c)
            + if c == '|' {
            20nat
        } else {
            1nat
        },
{
    let regs = match i.regs {
        Some(r) => r,
        None => default,
    };
    lemma_separator(c);
    lemma_numbers_hold_digits(i.pc as nat, 8, c);
    lemma_numbers_hold_digits(i.cycles as nat, 0, c);
    lemma_numbers_hold_digits(regs.sr as nat, 4, c);
    lemma_raw_chars(i.raw@, c);
    lemma_columns_chars(regs.d@, c);
    lemma_columns_chars(regs.a@, c);
    let s1 = hex_text(i.pc as nat, 8);
    let s2 = s1 + "|"@;
    let s3 = s2 + raw_text(i.raw@);
    let s4 = s3 + "|"@;
    let s5 = s4 + dec_text(i.cycles as nat);
    let s6 = s5 + "|"@;
    let s7 = s6 + shown_disassembly(i);
    let s8 = s7 + columns(regs.d@);
    let s9 = s8 + columns(regs.a@);
    let s10 = s9 + "|"@;
    let s11 = s10 + hex_text(regs.sr as nat, 4);
    lemma_occurrences_add(s1, "|"@, c);
    lemma_occurrences_add(s2, raw_text(i.raw@), c);
    lemma_occurrences_add(s3, "|"@, c);
    lemma_occurrences_add(s4, dec_text(i.cycles as nat), c);
    lemma_occurrences_add(s5, "|"@, c);
    lemma_occurrences_add(s6, shown_disassembly(i), c);
    lemma_occurrences_add(s7, columns(regs.d@), c);
    lemma_occurrences_add(s8, columns(regs.a@), c);
    lemma_occurrences_add(s9, "|"@, c);
    lemma_occurrences_add(s10, hex_text(regs.sr as nat, 4), c);
    lemma_occurrences_add(s11, "\n"@, c);
}

/// The lines of an instruction history follow one another: those of more entries are those
/// of the first and then those of the rest.
pub proof fn law_entry_lines_follow(a: Seq<HistoryEntry>, b: Seq<HistoryEntry>, default: Regs)
    ensures
        entry_lines(a + b, default) == entry_lines(a, default) + entry_lines(b, default),
    decreases b.len(),
{
    if b.len() == 0 {
        assert(a + b =~= a);
        assert(entry_lines(a, default) + entry_lines(b, default) =~= entry_lines(a, default));
    } else {
        assert((a + b).drop_last() =~= a + b.drop_last());
        law_entry_lines_follow(a, b.drop_last(), default);
        assert(entry_lines(a + b, default) =~= entry_lines(a, default) + entry_lines(b, default));
    }
}

/// The lines of traps follow one another.
pub proof fn law_trap_lines_follow(a: Seq<TrapEntry>, b: Seq<TrapEntry>)
    ensures
        trap_lines(a + b) == trap_lines(a) + trap_lines(b),
    decreases b.len(),
{
    if b.len() == 0 {
        assert(a + b =~= a);
        assert(trap_lines(a) + trap_lines(b) =~= trap_lines(a));
    } else {
        assert((a + b).drop_last() =~= a + b.drop_last());
        law_trap_lines_follow(a, b.drop_last());
        assert(trap_lines(a + b) =~= trap_lines(a) + trap_lines(b));
    }
}

/// The line of an instruction has the columns of the header, if its disassembly holds no
/// separator.
pub proof fn law_line_has_the_columns_of_the_header(i: Instruction, default: Regs)
    requires
        !shown_disassembly(i).contains('|'),
    ensures
        occurrences(instruction_line(i, default), '|') == occurrences(history_header(), '|'),
{
    lemma_no_occurrence(shown_disassembly(i), '|');
    lemma_instruction_line_chars(i, default, '|');
    lemma_header();
}

proof fn lemma_header()
    ensures
        occurrences(history_header(), '|') == 20,
        occurrences(history_header(), '\n') == 1,
{
    reveal_strlit(
        "PC|Raw|Cycles|Instruction|D0|D1|D2|D3|D4|D5|D6|D7|A0|A1|A2|A3|A4|A5|A6|A7|SR\n",
    );
    let h = history_header();
    assert(h.len() == 77);
    assert(h.take(77) =~= h);
    lemma_occurrences_upto(h, '|', 77);
    lemma_occurrences_upto(h, '\n', 77);
    assert(occurrences_upto(h, '|', 77) == 20) by {
        reveal_with_fuel(occurrences_upto, 78);
    }
    assert(occurrences_upto(h, '\n', 77) == 1) by {
        reveal_with_fuel(occurrences_upto, 78);
    }
}

proof fn lemma_literal_lines()
    ensures
        occurrences("--- exception: "@, '\n') == 0,
        occurrences(" (vector $"@, '\n') == 0,
        occurrences(") at cycle "@, '\n') == 0,
        occurrences("--- MMU page fault "@, '\n') == 0,
        occurrences(" ("@, '\n') == 0,
        occurrences("write"@, '\n') == 0,
        occurrences("read"@, '\n') == 0,
        occurrences("PC|Trap|Cycles\n"@, '\n') == 1,
        occurrences(")\n"@, '\n') == 1,
{
    reveal_strlit("--- exception: ");
    reveal_strlit(" (vector $");
    reveal_strlit(") at cycle ");
    reveal_strlit("--- MMU page fault ");
    reveal_strlit(" (");
    reveal_strlit("write");
    reveal_strlit("read");
    reveal_strlit("PC|Trap|Cycles\n");
    reveal_strlit(")\n");
    lemma_occurrences_upto("--- exception: "@, '\n', 15);
    assert("--- exception: "@.take(15) =~= "--- exception: "@);
    lemma_occurrences_upto(" (vector $"@, '\n', 10);
    assert(" (vector $"@.take(10) =~= " (vector $"@);
    lemma_occurrences_upto(") at cycle "@, '\n', 11);
    assert(") at cycle "@.take(11) =~= ") at cycle "@);
    lemma_occurrences_upto("--- MMU page fault "@, '\n', 19);
    assert("--- MMU page fault "@.take(19) =~= "--- MMU page fault "@);
    lemma_occurrences_upto(" ("@, '\n', 2);
    assert(" ("@.take(2) =~= " ("@);
    lemma_occurrences_upto("write"@, '\n', 5);
    assert("write"@.take(5) =~= "write"@);
    lemma_occurrences_upto("read"@, '\n', 4);
    assert("read"@.take(4) =~= "read"@);
    lemma_occurrences_upto("PC|Trap|Cycles\n"@, '\n', 15);
    assert("PC|Trap|Cycles\n"@.take(15) =~= "PC|Trap|Cycles\n"@);
    lemma_occurrences_upto(")\n"@, '\n', 2);
    assert(")\n"@.take(2) =~= ")\n"@);
    reveal_with_fuel(occurrences_upto, 20);
}

/// The line of an entry is one line, if its disassembly breaks none.
proof fn lemma_entry_is_one_line(entry: HistoryEntry, default: Regs)
    requires
        entry matches HistoryEntry::Instruction(i) ==> !shown_disassembly(i).contains('\n'),
    ensures
        occurrences(entry_line(entry, default), '\n') == 1,
{
    lemma_literal_lines();
    lemma_separator('\n');
    match entry {
        HistoryEntry::Instruction(i) => {
            lemma_no_occurrence(shown_disassembly(i), '\n');
            lemma_instruction_line_chars(i, default, '\n');
        },
        HistoryEntry::Exception { vector, cycles } => {
            lemma_label_is_one_line(vector);
            lemma_numbers_hold_digits(vector as nat, 3, '\n');
            lemma_numbers_hold_digits(cycles as nat, 0, '\n');
            let t1 = "--- exception: "@;
            lemma_occurrences_add(t1, vector_label(vector), '\n');
            let t2 = t1 + vector_label(vector);
            lemma_occurrences_add(t2, " (vector $"@, '\n');
            let t3 = t2 + " (vector $"@;
            lemma_occurrences_add(t3, hex_text(vector as nat, 3), '\n');
            let t4 = t3 + hex_text(vector as nat, 3);
            lemma_occurrences_add(t4, ") at cycle "@, '\n');
            let t5 = t4 + ") at cycle "@;
            lemma_occurrences_add(t5, dec_text(cycles as nat), '\n');
            let t6 = t5 + dec_text(cycles as nat);
            lemma_occurrences_add(t6, "\n"@, '\n');
        },
        HistoryEntry::Pagefault { address, write } => {
            lemma_numbers_hold_digits(address as nat, 8, '\n');
            let kind = if write {
                "write"@
            } else {
                "read"@
            };
            let t1 = "--- MMU page fault "@;
            lemma_occurrences_add(t1, hex_text(address as nat, 8), '\n');
            let t2 = t1 + hex_text(address as nat, 8);
            lemma_occurrences_add(t2, " ("@, '\n');
            let t3 = t2 + " ("@;
            lemma_occurrences_add(t3, kind, '\n');
            let t4 = t3 + kind;
            lemma_occurrences_add(t4, ")\n"@, '\n');
        },
    }
}

proof fn lemma_entries_are_lines(entries: Seq<HistoryEntry>, default: Regs)
    requires
        forall|k: int|
            0 <= k < entries.len() ==> (#[trigger] entries[k] matches HistoryEntry::Instruction(i)
                ==> !shown_disassembly(i).contains('\n')),
    ensures
        occurrences(entry_lines(entries, default), '\n') == entries.len(),
    decreases entries.len(),
{
    if entries.len() > 0 {
        let rest = entries.drop_last();
        assert forall|k: int| 0 <= k < rest.len() implies (
        #[trigger] rest[k] matches HistoryEntry::Instruction(i) ==> !shown_disassembly(i).contains(
            '\n',
        )) by {
            assert(rest[k] == entries[k]);
        }
        lemma_entries_are_lines(rest, default);
        assert(entries[entries.len() - 1] == entries.last());
        lemma_entry_is_one_line(entries.last(), default);
        lemma_occurrences_add(
            entry_lines(rest, default),
            entry_line(entries.last(), default),
            '\n',
        );
    }
}

/// A listing of the instruction history has one line for the header and one for each entry
/// that it shows, if no disassembly breaks the line.
pub proof fn law_history_has_a_line_for_each_entry(
    history: Seq<HistoryEntry>,
    last: nat,
    default: Regs,
)
    requires
        forall|k: int|
            0 <= k < history.len() ==> (#[trigger] history[k] matches HistoryEntry::Instruction(i)
                ==> !shown_disassembly(i).contains('\n')),
    ensures
        occurrences(history_text(history, last, default), '\n') == 1 + if last < history.len() {
            last
        } else {
            history.len()
        },
{
    let shown = last_of(history, last);
    assert forall|k: int| 0 <= k < shown.len() implies (
    #[trigger] shown[k] matches HistoryEntry::Instruction(i) ==> !shown_disassembly(i).contains(
        '\n',
    )) by {
        assert(shown[k] == history[k + (history.len() - shown.len())]);
    }
    lemma_entries_are_lines(shown, default);
    lemma_header();
    lemma_occurrences_add(history_header(), entry_lines(shown, default), '\n');
}

proof fn lemma_traps_are_lines(traps: Seq<TrapEntry>)
    ensures
        occurrences(trap_lines(traps), '\n') == traps.len(),
    decreases traps.len(),
{
    if traps.len() > 0 {
        let t = traps.last();
        lemma_traps_are_lines(traps.drop_last());
        lemma_separator('\n');
        lemma_numbers_hold_digits(t.pc as nat, 8, '\n');
        lemma_numbers_hold_digits(t.trap as nat, 4, '\n');
        lemma_numbers_hold_digits(t.cycles as nat, 0, '\n');
        let t1 = hex_text(t.pc as nat, 8);
        lemma_occurrences_add(t1, "|"@, '\n');
        let t2 = t1 + "|"@;
        lemma_occurrences_add(t2, hex_text(t.trap as nat, 4), '\n');
        let t3 = t2 + hex_text(t.trap as nat, 4);
        lemma_occurrences_add(t3, "|"@, '\n');
        let t4 = t3 + "|"@;
        lemma_occurrences_add(t4, dec_text(t.cycles as nat), '\n');
        let t5 = t4 + dec_text(t.cycles as nat);
        lemma_occurrences_add(t5, "\n"@, '\n');
        lemma_occurrences_add(trap_lines(traps.drop_last()), trap_line(t), '\n');
    }
}

/// A listing of traps has one line for the header and one for each trap that it shows.
pub proof fn law_traps_have_a_line_each(traps: Seq<TrapEntry>, last: nat)
    ensures
        occurrences(traps_text(traps, last), '\n') == 1 + if last < traps.len() {
            last
        } else {
            traps.len()
        },
{
    let shown = last_of(traps, last);
    lemma_traps_are_lines(shown);
    lemma_literal_lines();
    lemma_occurrences_add("PC|Trap|Cycles\n"@, trap_lines(shown), '\n');
}

proof fn lemma_byte_digits(b: u8)
    ensures
        hex_text(b as nat, 2).len() == 2,
        hex_text(b as nat, 2)[0] == "0123456789ABCDEF"@[b as int / 16],
        hex_text(b as nat, 2)[1] == "0123456789ABCDEF"@[b as int % 16],
{
    let s = hex_text(b as nat, 2);
    lemma_exact_widths();
    assert(s.len() == 2);
    law_hex_text_is_the_number(b as nat, 2);
    vstd::arithmetic::power::lemma_pow0(16);
    vstd::arithmetic::power::lemma_pow1(16);
    let i: nat = 1;
    let j: nat = 0;
    assert(s[s.len() - 1 - i] == s[0]);
    assert(s[s.len() - 1 - j] == s[1]);
}

/// The raw bytes of an instruction are all shown, however many there are: two digits of
/// upper-case hexadecimal for each, in order. What is shown of more bytes is what is shown of
/// the first and then of the rest.
pub proof fn law_every_raw_byte_is_shown(raw: Seq<u8>, more: Seq<u8>)
    ensures
        raw_text(raw).len() == 2 * raw.len(),
        forall|i: int|
            0 <= i < raw.len() ==> {
                &&& raw_text(raw)[2 * i] == "0123456789ABCDEF"@[#[trigger] raw[i] as int / 16]
                &&& raw_text(raw)[2 * i + 1] == "0123456789ABCDEF"@[raw[i] as int % 16]
            },
        raw_text(raw + more) == raw_text(raw) + raw_text(more),
    decreases raw.len() + more.len(),
{
    if raw.len() > 0 {
        let rest = raw.drop_last();
        law_every_raw_byte_is_shown(rest, seq![]);
        lemma_byte_digits(raw.last());
        assert forall|i: int| 0 <= i < raw.len() implies {
            &&& raw_text(raw)[2 * i] == "0123456789ABCDEF"@[#[trigger] raw[i] as int / 16]
            &&& raw_text(raw)[2 * i + 1] == "0123456789ABCDEF"@[raw[i] as int % 16]
        } by {
            if i < rest.len() {
                assert(rest[i] == raw[i]);
                assert(raw_text(raw)[2 * i] == raw_text(rest)[2 * i]);
                assert(raw_text(raw)[2 * i + 1] == raw_text(rest)[2 * i + 1]);
            }
        }
    }
    if more.len() > 0 {
        assert((raw + more).drop_last() =~= raw + more.drop_last());
        law_every_raw_byte_is_shown(raw, more.drop_last());
        assert(raw_text(raw + more) =~= raw_text(raw) + raw_text(more));
    } else {
        assert(raw + more =~= raw);
        assert(raw_text(raw) + raw_text(more) =~= raw_text(raw));
    }
}

/// Whether `line` has a separator at `at`, and `v` in eight digits of hexadecimal behind it.
pub open spec fn is_column(line: Seq<char>, at: int, v: u32) -> bool {
    &&& 0 <= at && at + 9 <= line.len()
    &&& line[at] == '|'
    &&& line.subrange(at + 1, at + 9) == hex_text(v as nat, 8)
}

/// Each value has a column of eight digits behind a separator.
proof fn lemma_columns_places(values: Seq<u32>)
    ensures
        columns(values).len() == 9 * values.len(),
        forall|k: int|
            0 <= k < values.len() ==> #[trigger] is_column(columns(values), 9 * k, values[k]),
    decreases values.len(),
{
    if values.len() > 0 {
        let rest = values.drop_last();
        let all = columns(values);
        lemma_columns_places(rest);
        lemma_exact_widths();
        reveal_strlit("|");
        assert(hex_text(values.last() as nat, 8).len() == 8);
        assert forall|k: int| 0 <= k < values.len() implies #[trigger] is_column(
            all,
            9 * k,
            values[k],
        ) by {
            if k < rest.len() {
                assert(rest[k] == values[k]);
                assert(is_column(columns(rest), 9 * k, rest[k]));
                assert(all.subrange(9 * k + 1, 9 * k + 9) =~= columns(rest).subrange(
                    9 * k + 1,
                    9 * k + 9,
                ));
            } else {
                assert(all.subrange(9 * k + 1, 9 * k + 9) =~= hex_text(values[k] as nat, 8));
            }
        }
    }
}

/// The line of an instruction has its places. From its start: the program counter in eight
/// digits, and every raw byte in two. Before its end: the eight data registers and the eight
/// address registers in eight digits each, and the status register in four. Between them: the
/// cycles and the disassembly. Separators stand between all of these, and the line ends there.
pub proof fn law_instruction_line_shows_the_instruction(
    i: Instruction,
    default: Regs,
    line: Seq<char>,
    regs: Regs,
)
    requires
        line == entry_line(HistoryEntry::Instruction(i), default),
        i.regs == Some(regs) || (i.regs is None && regs == default),
    ensures
        line.len() > 160 + 2 * i.raw.len(),
        line.subrange(0, 8) == hex_text(i.pc as nat, 8),
        line[8] == '|',
        forall|k: int|
            0 <= k < i.raw.len() ==> {
                &&& line[9 + 2 * k] == "0123456789ABCDEF"@[#[trigger] i.raw@[k] as int / 16]
                &&& line[10 + 2 * k] == "0123456789ABCDEF"@[i.raw@[k] as int % 16]
            },
        line[9 + 2 * i.raw.len()] == '|',
        line.subrange(10 + 2 * i.raw.len(), line.len() - 150) == dec_text(i.cycles as nat) + "|"@
            + match i.disassembly {
            Some(text) => text@,
            None => "<invalid>"@,
        },
        forall|k: int|
            0 <= k < 8 ==> #[trigger] is_column(line, line.len() - 150 + 9 * k, regs.d@[k]),
        forall|k: int|
            0 <= k < 8 ==> #[trigger] is_column(line, line.len() - 78 + 9 * k, regs.a@[k]),
        line[line.len() - 6] == '|',
        line.subrange(line.len() - 5, line.len() - 1) == hex_text(regs.sr as nat, 4),
        line[line.len() - 1] == '\n',
{
    reveal_strlit("|");
    reveal_strlit("\n");
    lemma_exact_widths();
    law_every_raw_byte_is_shown(i.raw@, seq![]);
    law_dec_text_is_the_number(i.cycles as nat);
    lemma_columns_places(regs.d@);
    lemma_columns_places(regs.a@);
    let pc = hex_text(i.pc as nat, 8);
    let raw = raw_text(i.raw@);
    let sr = hex_text(regs.sr as nat, 4);
    let middle = dec_text(i.cycles as nat) + "|"@ + shown_disassembly(i);
    let cd = columns(regs.d@);
    let ca = columns(regs.a@);
    assert(pc.len() == 8 && sr.len() == 4 && cd.len() == 72 && ca.len() == 72);
    assert(line =~= pc + "|"@ + raw + "|"@ + middle + cd + ca + "|"@ + sr + "\n"@);
    let d = line.len() - 150;
    let a = line.len() - 78;
    assert(d == 10 + 2 * i.raw.len() + middle.len());
    assert(line.subrange(0, 8) =~= pc);
    assert(line.subrange(10 + 2 * i.raw.len(), d) =~= middle);
    assert(line.subrange(line.len() - 5, line.len() - 1) =~= sr);
    assert forall|k: int| 0 <= k < i.raw.len() implies {
        &&& line[9 + 2 * k] == "0123456789ABCDEF"@[#[trigger] i.raw@[k] as int / 16]
        &&& line[10 + 2 * k] == "0123456789ABCDEF"@[i.raw@[k] as int % 16]
    } by {
        assert(line[9 + 2 * k] == raw[2 * k]);
        assert(line[10 + 2 * k] == raw[2 * k + 1]);
    }
    assert forall|k: int| 0 <= k < 8 implies #[trigger] is_column(
        line,
        line.len() - 150 + 9 * k,
        regs.d@[k],
    ) by {
        assert(is_column(cd, 9 * k, regs.d@[k]));
        assert(line[d + 9 * k] == cd[9 * k]);
        assert(line.subrange(d + 9 * k + 1, d + 9 * k + 9) =~= cd.subrange(9 * k + 1, 9 * k + 9));
    }
    assert forall|k: int| 0 <= k < 8 implies #[trigger] is_column(
        line,
        line.len() - 78 + 9 * k,
        regs.a@[k],
    ) by {
        assert(is_column(ca, 9 * k, regs.a@[k]));
        assert(line[a + 9 * k] == ca[9 * k]);
        assert(line.subrange(a + 9 * k + 1, a + 9 * k + 9) =~= ca.subrange(9 * k + 1, 9 * k + 9));
    }
}

/// The line of an exception names it, gives its vector in at least three digits and tells at
/// which cycle it came.
pub proof fn law_exception_line_shows_the_exception(
    vector: u32,
    cycles: u64,
    default: Regs,
    name: &'static str,
    line: Seq<char>,
)
    requires
        call_ensures(vector_name, (vector,), name),
        line == entry_line(HistoryEntry::Exception { vector, cycles }, default),
    ensures
        ({
            let name_end = 15 + name@.len() as int;
            let vector_end = name_end + 10 + hex_text(vector as nat, 3).len();
            &&& line.subrange(0, 15) == "--- exception: "@
            &&& line.subrange(15, name_end) == name@
            &&& line.subrange(name_end, name_end + 10) == " (vector $"@
            &&& line.subrange(name_end + 10, vector_end) == hex_text(vector as nat, 3)
            &&& line.subrange(vector_end, vector_end + 11) == ") at cycle "@
            &&& line.subrange(vector_end + 11, line.len() - 1) == dec_text(cycles as nat)
            &&& line[line.len() - 1] == '\n'
        }),
{
    reveal_strlit("--- exception: ");
    reveal_strlit(" (vector $");
    reveal_strlit(") at cycle ");
    reveal_strlit("\n");
    assert(name@ == vector_label(vector));
    let hex = hex_text(vector as nat, 3);
    let dec = dec_text(cycles as nat);
    let name_end = 15 + name@.len() as int;
    let vector_end = name_end + 10 + hex.len();
    assert(line == "--- exception: "@ + name@ + " (vector $"@ + hex + ") at cycle "@ + dec + "\n"@);
    assert(line.subrange(0, 15) =~= "--- exception: "@);
    assert(line.subrange(15, name_end) =~= name@);
    assert(line.subrange(name_end, name_end + 10) =~= " (vector $"@);
    assert(line.subrange(name_end + 10, vector_end) =~= hex);
    assert(line.subrange(vector_end, vector_end + 11) =~= ") at cycle "@);
    assert(line.subrange(vector_end + 11, line.len() - 1) =~= dec);
}

/// The line of a page fault gives its address in eight digits and tells reads from writes.
pub proof fn law_page_fault_line_shows_the_fault(
    address: u32,
    write: bool,
    default: Regs,
    line: Seq<char>,
)
    requires
        line == entry_line(HistoryEntry::Pagefault { address, write }, default),
    ensures
        line.subrange(0, 19) == "--- MMU page fault "@,
        line.subrange(19, 27) == hex_text(address as nat, 8),
        write <==> line.skip(27) == " (write)\n"@,
        !write <==> line.skip(27) == " (read)\n"@,
{
    reveal_strlit("--- MMU page fault ");
    reveal_strlit(" (");
    reveal_strlit("write");
    reveal_strlit("read");
    reveal_strlit(")\n");
    reveal_strlit(" (write)\n");
    reveal_strlit(" (read)\n");
    lemma_exact_widths();
    assert(hex_text(address as nat, 8).len() == 8);
    assert(line.subrange(0, 19) =~= "--- MMU page fault "@);
    assert(line.subrange(19, 27) =~= hex_text(address as nat, 8));
    if write {
        assert(line.skip(27) =~= " (write)\n"@);
    } else {
        assert(line.skip(27) =~= " (read)\n"@);
    }
}

/// The line of a trap gives its program counter in eight digits, its number in four and its
/// cycle.
pub proof fn law_trap_line_shows_the_trap(t: TrapEntry, line: Seq<char>)
    requires
        line == trap_line(t),
    ensures
        line.subrange(0, 8) == hex_text(t.pc as nat, 8),
        line[8] == '|',
        line.subrange(9, 13) == hex_text(t.trap as nat, 4),
        line[13] == '|',
        line.subrange(14, line.len() - 1) == dec_text(t.cycles as nat),
        line[line.len() - 1] == '\n',
{
    reveal_strlit("|");
    reveal_strlit("\n");
    lemma_exact_widths();
    assert(hex_text(t.pc as nat, 8).len() == 8);
    assert(hex_text(t.trap as nat, 4).len() == 4);
    assert(line.subrange(0, 8) =~= hex_text(t.pc as nat, 8));
    assert(line.subrange(9, 13) =~= hex_text(t.trap as nat, 4));
    assert(line.subrange(14, line.len() - 1) =~= dec_text(t.cycles as nat));
}

/// The header has a name for each column of an instruction's line, in their order.
pub proof fn law_header_names_the_columns(k: int)
    requires
        0 <= k < 8,
    ensures
        history_header().subrange(0, 25) == "PC|Raw|Cycles|Instruction"@,
        history_header().subrange(25 + 3 * k, 28 + 3 * k) == seq!['|', 'D', "01234567"@[k]],
        history_header().subrange(49 + 3 * k, 52 + 3 * k) == seq!['|', 'A', "01234567"@[k]],
        history_header().skip(73) == "|SR\n"@,
{
    reveal_strlit(
        "PC|Raw|Cycles|Instruction|D0|D1|D2|D3|D4|D5|D6|D7|A0|A1|A2|A3|A4|A5|A6|A7|SR\n",
    );
    reveal_strlit("PC|Raw|Cycles|Instruction");
    reveal_strlit("01234567");
    reveal_strlit("|SR\n");
    let h = history_header();
    assert(h.subrange(0, 25) =~= "PC|Raw|Cycles|Instruction"@);
    assert(h.skip(73) =~= "|SR\n"@);
    assert(k == 0 || k == 1 || k == 2 || k == 3 || k == 4 || k == 5 || k == 6 || k == 7);
    assert(h.subrange(25 + 3 * k, 28 + 3 * k) =~= seq!['|', 'D', "01234567"@[k]]);
    assert(h.subrange(49 + 3 * k, 52 + 3 * k) =~= seq!['|', 'A', "01234567"@[k]]);
}

/// What is listed are the last entries: of more entries than are wanted, those before them
/// change nothing, and to want more than there are changes nothing.
pub proof fn law_last_entries_count<T>(earlier: Seq<T>, later: Seq<T>, n: nat)
    ensures
        last_of(earlier + later, later.len()) == later,
        n >= later.len() ==> last_of(later, n) == later,
{
    assert((earlier + later).skip(earlier.len() as int) =~= later);
    if earlier.len() == 0 {
        assert(earlier + later =~= later);
    }
}

/// A listing of the instruction history is its header and the lines of the entries that it
/// shows: with one more entry that is wanted too, it has that entry's line more, at its end.
/// Entries before those that are wanted change nothing.
pub proof fn law_history_grows_by_a_line(
    history: Seq<HistoryEntry>,
    entry: HistoryEntry,
    last: nat,
    default: Regs,
)
    ensures
        history_text(history, 0, default) == history_header(),
        history_text(seq![], last, default) == history_header(),
        history_text(history.push(entry), last + 1, default) == history_text(history, last, default)
            + entry_line(entry, default),
        last <= history.len() ==> history_text(seq![entry] + history, last, default)
            == history_text(history, last, default),
{
    assert(last_of(history, 0).len() == 0);
    assert(history_text(history, 0, default) =~= history_header());
    assert(history_text(seq![], last, default) =~= history_header());
    let shown = last_of(history.push(entry), last + 1);
    assert(shown.drop_last() =~= last_of(history, last));
    assert(shown.last() == entry);
    assert(history_text(history.push(entry), last + 1, default) =~= history_text(
        history,
        last,
        default,
    ) + entry_line(entry, default));
    if last <= history.len() {
        assert(last_of(seq![entry] + history, last) =~= last_of(history, last));
    }
}

/// The same holds of a listing of traps.
pub proof fn law_traps_grow_by_a_line(traps: Seq<TrapEntry>, trap: TrapEntry, last: nat)
    ensures
        traps_text(traps, 0) == "PC|Trap|Cycles\n"@,
        traps_text(seq![], last) == "PC|Trap|Cycles\n"@,
        traps_text(traps.push(trap), last + 1) == traps_text(traps, last) + trap_line(trap),
        last <= traps.len() ==> traps_text(seq![trap] + traps, last) == traps_text(traps, last),
{
    assert(last_of(traps, 0).len() == 0);
    assert(traps_text(traps, 0) =~= "PC|Trap|Cycles\n"@);
    assert(traps_text(seq![], last) =~= "PC|Trap|Cycles\n"@);
    let shown = last_of(traps.push(trap), last + 1);
    assert(shown.drop_last() =~= last_of(traps, last));
    assert(shown.last() == trap);
    assert(traps_text(traps.push(trap), last + 1) =~= traps_text(traps, last) + trap_line(trap));
    if last <= traps.len() {
        assert(last_of(seq![trap] + traps, last) =~= last_of(traps, last));
    }
}

/// Whatever is listed of an instruction history stands behind what was there, and ends with the
/// line of its latest entry if any are wanted.
pub proof fn law_listing_ends_with_the_latest_entry(
    out: &mut String,
    history: &Vec<HistoryEntry>,
    last: usize,
    default_regs: &Regs,
)
    requires
        call_ensures(write_history, (out, history, last, default_regs), ()),
        history.len() > 0,
        last > 0,
    ensures
        final(out)@ == old(out)@ + history_text(history@, last as nat, *default_regs),
        (old(out)@ + history_header()).is_prefix_of(final(out)@),
        entry_line(history@.last(), *default_regs).is_suffix_of(final(out)@),
{
    let text = history_text(history@, last as nat, *default_regs);
    let line = entry_line(history@.last(), *default_regs);
    assert(final(out)@ == old(out)@ + text);
    law_history_grows_by_a_line(
        history@.drop_last(),
        history@.last(),
        (last - 1) as nat,
        *default_regs,
    );
    assert(history@.drop_last().push(history@.last()) =~= history@);
    let all = final(out)@;
    assert(all.subrange(0, (old(out)@ + history_header()).len() as int) =~= old(out)@
        + history_header());
    assert(all.subrange(all.len() - line.len(), all.len() as int) =~= line);
}

/// Whatever is listed of traps stands behind what was there, and ends with the line of the
/// latest trap if any are wanted.
pub proof fn law_listing_ends_with_the_latest_trap(
    out: &mut String,
    traps: &Vec<TrapEntry>,
    last: usize,
)
    requires
        call_ensures(write_traps, (out, traps, last), ()),
        traps.len() > 0,
        last > 0,
    ensures
        final(out)@ == old(out)@ + traps_text(traps@, last as nat),
        (old(out)@ + "PC|Trap|Cycles\n"@).is_prefix_of(final(out)@),
        trap_line(traps@.last()).is_suffix_of(final(out)@),
{
    let text = traps_text(traps@, last as nat);
    let line = trap_line(traps@.last());
    assert(final(out)@ == old(out)@ + text);
    law_traps_grow_by_a_line(traps@.drop_last(), traps@.last(), (last - 1) as nat);
    assert(traps@.drop_last().push(traps@.last()) =~= traps@);
    let all = final(out)@;
    assert(all.subrange(0, (old(out)@ + "PC|Trap|Cycles\n"@).len() as int) =~= old(out)@
        + "PC|Trap|Cycles\n"@);
    assert(all.subrange(all.len() - line.len(), all.len() as int) =~= line);
}

} // verus!
