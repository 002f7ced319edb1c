use snowrun::history::{write_history, write_traps, HistoryEntry, Instruction, TrapEntry};
use snowrun::regs::{regs_summary, Regs};

const HEADER: &str =
    "PC|Raw|Cycles|Instruction|D0|D1|D2|D3|D4|D5|D6|D7|A0|A1|A2|A3|A4|A5|A6|A7|SR\n";

fn some_regs() -> Regs {
    Regs {
        pc: 0x40_0000,
        sr: 0x2700,
        d: [1, 2, 3, 4, 5, 6, 7, 0xFFFF_FFFF],
        a: [0x10, 0x20, 0x30, 0x40, 0x50, 0x60, 0x70, 0xDEAD_BEEF],
    }
}

fn zero_regs() -> Regs {
    Regs { pc: 0, sr: 0, d: [0; 8], a: [0; 8] }
}

fn instruction(regs: Option<Regs>, disassembly: Option<&str>) -> HistoryEntry {
    HistoryEntry::Instruction(Instruction {
        pc: 0x1234,
        raw: vec![0x4E, 0x71, 0x0A],
        cycles: 1_048_576,
        regs,
        disassembly: disassembly.map(|d| d.to_string()),
    })
}

fn listing(history: &Vec<HistoryEntry>, last: usize) -> String {
    let mut out = String::new();
    write_history(&mut out, history, last, &zero_regs());
    out
}

#[test]
fn registers_are_summed_up() {
    assert_eq!(regs_summary(None), "pc=?");
    assert_eq!(
        regs_summary(Some(&some_regs())),
        "pc=$00400000 sr=$2700 d0=$00000001 a0=$00000010 a6=$00000070 a7=$DEADBEEF"
    );
}

#[test]
fn instructions_are_listed() {
    let text = listing(&vec![instruction(Some(some_regs()), Some("NOP"))], 5);
    let expected = "00001234|4E710A|1048576|NOP|00000001|00000002|00000003|00000004|00000005|\
        00000006|00000007|FFFFFFFF|00000010|00000020|00000030|00000040|00000050|00000060|\
        00000070|DEADBEEF|2700\n";
    assert_eq!(text, format!("{HEADER}{expected}"));
}

#[test]
fn missing_registers_and_disassemblies_have_a_stand_in() {
    let text = listing(&vec![instruction(None, None)], 5);
    let zeros = "|00000000".repeat(16);
    assert_eq!(text, format!("{HEADER}00001234|4E710A|1048576|<invalid>{zeros}|0000\n"));
}

#[test]
fn exceptions_and_page_faults_are_listed() {
    let history = vec![
        HistoryEntry::Exception { vector: 0x0C, cycles: 0 },
        HistoryEntry::Exception { vector: 0x1000, cycles: 99 },
        HistoryEntry::Pagefault { address: 0xABC, write: true },
        HistoryEntry::Pagefault { address: 0, write: false },
    ];
    assert_eq!(
        listing(&history, 4),
        format!(
            "{HEADER}--- exception: address error (vector $00C) at cycle 0\n\
             --- exception: other (vector $1000) at cycle 99\n\
             --- MMU page fault 00000ABC (write)\n\
             --- MMU page fault 00000000 (read)\n"
        )
    );
}

#[test]
fn only_the_last_entries_are_listed() {
    let mut history = Vec::new();
    for i in 0..5u64 {
        history.push(HistoryEntry::Exception { vector: 0x24, cycles: i });
    }
    assert_eq!(listing(&history, 0), HEADER);
    assert!(listing(&history, 2).ends_with("at cycle 3\n--- exception: trace (vector $024) at cycle 4\n"));
    assert_eq!(listing(&history, 2).lines().count(), 3);
    assert_eq!(listing(&history, 5).lines().count(), 6);
    assert_eq!(listing(&history, 500), listing(&history, 5));
}

#[test]
fn lines_have_the_columns_of_the_header() {
    let text = listing(&vec![instruction(Some(some_regs()), Some("MOVE D0,D1"))], 1);
    for line in text.lines() {
        assert_eq!(line.split('|').count(), 21);
    }
}

#[test]
fn listings_are_appended() {
    let mut out = "before\n".to_string();
    write_history(&mut out, &vec![], 3, &zero_regs());
    write_traps(&mut out, &vec![], 3);
    assert_eq!(out, format!("before\n{HEADER}PC|Trap|Cycles\n"));
}

#[test]
fn traps_are_listed() {
    let traps = vec![
        TrapEntry { pc: 1, trap: 0xA9F4, cycles: 10 },
        TrapEntry { pc: 0x40_1234, trap: 0xA02E, cycles: 18_446_744_073_709_551_615 },
    ];
    let mut out = String::new();
    write_traps(&mut out, &traps, 2);
    assert_eq!(
        out,
        "PC|Trap|Cycles\n00000001|A9F4|10\n00401234|A02E|18446744073709551615\n"
    );
    let mut out = String::new();
    write_traps(&mut out, &traps, 1);
    assert_eq!(out, "PC|Trap|Cycles\n00401234|A02E|18446744073709551615\n");
}
