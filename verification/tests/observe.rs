use snowrun::history::{HistoryEntry, TrapEntry};
use snowrun::observe::{drain_events, Event, Observed};
use snowrun::regs::Regs;

fn regs(pc: u32) -> Regs {
    Regs { pc, sr: 0x2700, d: [0; 8], a: [0; 8] }
}

fn memory(addr: u32, bytes: &[u8], ram_len: usize) -> Event {
    Event::Memory { addr, bytes: bytes.to_vec(), ram_len }
}

fn status(running: bool, cycles: u64, pc: u32) -> Event {
    Event::Status { running, cycles, regs: regs(pc) }
}

#[test]
fn nothing_is_seen_at_first() {
    let obs = Observed::default();
    assert!(obs.ram.is_empty() && obs.regs.is_none());
    assert!(obs.history.is_empty() && obs.traps.is_empty());
}

#[test]
fn memory_is_mirrored() {
    let mut obs = Observed::default();
    assert!(!drain_events(vec![memory(2, &[1, 2, 3], 8)], &mut obs));
    assert_eq!(obs.ram, [0, 0, 1, 2, 3, 0, 0, 0]);
    assert!(!drain_events(vec![memory(4, &[9, 9, 9, 9], 8)], &mut obs));
    assert_eq!(obs.ram, [0, 0, 1, 2, 9, 9, 9, 9]);
}

#[test]
fn mirrored_memory_follows_the_size_of_ram() {
    let mut obs = Observed::default();
    drain_events(vec![memory(0, &[1, 2, 3, 4], 4)], &mut obs);
    drain_events(vec![memory(0, &[], 2)], &mut obs);
    assert_eq!(obs.ram, [1, 2]);
    drain_events(vec![memory(4, &[7], 5)], &mut obs);
    assert_eq!(obs.ram, [1, 2, 0, 0, 7]);
}

#[test]
fn later_and_separate_reports() {
    let mut a = Observed::default();
    let mut b = Observed::default();
    drain_events(vec![memory(0, &[1, 2], 4), memory(2, &[3, 4], 4)], &mut a);
    drain_events(vec![memory(2, &[3, 4], 4), memory(0, &[1, 2], 4)], &mut b);
    assert_eq!(a.ram, b.ram);
    drain_events(vec![memory(1, &[8], 4), memory(0, &[5, 6, 7], 4)], &mut a);
    assert_eq!(a.ram, [5, 6, 7, 4]);
}

#[test]
fn a_stop_is_reported_after_a_hundred_cycles() {
    let mut obs = Observed::default();
    assert!(!drain_events(vec![status(false, 100, 1)], &mut obs));
    assert_eq!(obs.regs, Some(regs(1)));
    assert!(drain_events(vec![status(false, 101, 2)], &mut obs));
    assert!(!drain_events(vec![status(true, 5000, 3)], &mut obs));
    assert!(drain_events(vec![status(false, 101, 4), status(true, 102, 5)], &mut obs));
    assert_eq!(obs.regs, Some(regs(5)));
}

#[test]
fn the_latest_histories_are_kept() {
    let mut obs = Observed::default();
    let trap = |pc: u32| TrapEntry { pc, trap: 0xA000, cycles: 4 };
    drain_events(
        vec![
            Event::InstructionHistory(vec![HistoryEntry::Pagefault { address: 1, write: false }]),
            Event::SystrapHistory(vec![trap(1), trap(2)]),
            Event::Other,
            Event::SystrapHistory(vec![trap(3)]),
        ],
        &mut obs,
    );
    assert_eq!(obs.history.len(), 1);
    assert_eq!(obs.traps, vec![trap(3)]);
}

#[test]
fn drains_add_up() {
    let mut one = Observed::default();
    let mut two = Observed::default();
    let stopped = drain_events(vec![memory(0, &[1], 2), status(false, 200, 9), memory(1, &[2], 2)], &mut one);
    let first = drain_events(vec![memory(0, &[1], 2)], &mut two);
    let second = drain_events(vec![status(false, 200, 9), memory(1, &[2], 2)], &mut two);
    assert_eq!(stopped, first || second);
    assert_eq!((one.ram, one.regs), (two.ram, two.regs));
}

#[test]
fn one_event_is_observed() {
    let mut obs = Observed::default();
    assert!(obs.observe(status(false, 101, 6)));
    assert!(!obs.observe(Event::Other));
    assert_eq!(obs.regs, Some(regs(6)));
}
