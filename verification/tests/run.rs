use snowrun::observe::Event;
use snowrun::regs::Regs;
use snowrun::run::{Run, ShotClock};
use snowrun::screenshot::Frame;
use snowrun::script::{KeyMove, KeyPress, KeyScript};
use snowrun::history::{HistoryEntry, TrapEntry};

fn regs() -> Regs {
    Regs { pc: 8, sr: 0, d: [0; 8], a: [0; 8] }
}

fn frame(width: u16) -> Frame {
    Frame { width, height: 1, rgba: vec![0; 4 * width as usize] }
}

fn new_run(total: u64, every: u64) -> Run {
    let presses = vec![KeyPress { down: 10, up: 20, code: 0x24 }];
    Run::new(total, every, KeyScript::new(&presses))
}

fn stop() -> Event {
    Event::Status { running: false, cycles: 101, regs: regs() }
}

#[test]
fn a_run_ends_after_its_time() {
    let run = new_run(100, 0);
    assert!(run.goes_on(0));
    assert!(run.goes_on(99));
    assert!(!run.goes_on(100));
}

#[test]
fn keys_move_on_time() {
    let mut run = new_run(100, 0);
    assert_eq!(run.before_tick(9, None, vec![]), Some(vec![]));
    assert_eq!(
        run.before_tick(12, None, vec![]),
        Some(vec![KeyMove { tick: 10, pressed: true, code: 0x24 }])
    );
    assert_eq!(
        run.before_tick(30, None, vec![]),
        Some(vec![KeyMove { tick: 20, pressed: false, code: 0x24 }])
    );
    assert_eq!(run.before_tick(40, None, vec![]), Some(vec![]));
}

#[test]
fn a_stop_ends_the_run_and_moves_no_key() {
    let mut run = new_run(100, 0);
    assert_eq!(run.before_tick(50, Some(frame(3)), vec![stop()]), None);
    assert_eq!(run.latest.as_ref().map(|f| f.width), Some(3));
    assert_eq!(run.obs.regs, Some(regs()));
    assert_eq!(run.before_tick(50, None, vec![]).map(|keys| keys.len()), Some(2));
}

#[test]
fn screenshots_fall_due() {
    let mut run = new_run(1000, 10);
    run.before_tick(0, Some(frame(2)), vec![]);
    assert!(!run.after_tick(9));
    assert!(run.after_tick(10));
    assert!(!run.after_tick(19));
    assert!(run.after_tick(45));
    assert!(run.after_tick(46));
    assert!(run.after_tick(47));
    assert!(!run.after_tick(48));
    assert!(run.after_tick(50));
}

#[test]
fn a_screenshot_without_a_picture_is_skipped() {
    let mut run = new_run(1000, 10);
    assert!(!run.after_tick(10));
    run.before_tick(10, Some(frame(2)), vec![]);
    assert!(!run.after_tick(11));
    assert!(run.after_tick(20));
}

#[test]
fn no_screenshots_are_taken_at_distance_zero() {
    let mut run = new_run(1000, 0);
    run.before_tick(0, Some(frame(2)), vec![]);
    assert!(!run.after_tick(0));
    assert!(!run.after_tick(u64::MAX));
}

#[test]
fn the_latest_picture_is_kept() {
    let mut run = new_run(1000, 0);
    assert!(run.latest.is_none());
    run.before_tick(0, Some(frame(2)), vec![]);
    run.before_tick(0, None, vec![]);
    assert_eq!(run.latest.as_ref().map(|f| f.width), Some(2));
    run.before_tick(0, Some(frame(5)), vec![]);
    assert_eq!(run.latest.as_ref().map(|f| f.width), Some(5));
}

#[test]
fn the_last_events_are_taken_at_the_end() {
    let mut run = new_run(10, 0);
    run.finish(vec![Event::Memory { addr: 1, bytes: vec![4], ram_len: 2 }, stop()]);
    assert_eq!(run.obs.ram, [0, 4]);
    assert_eq!(run.obs.regs, Some(regs()));
}

#[test]
fn listings_are_made_where_they_are_wanted() {
    let mut run = new_run(10, 0);
    run.finish(vec![
        Event::InstructionHistory(vec![HistoryEntry::Exception { vector: 0x10, cycles: 3 }]),
        Event::SystrapHistory(vec![TrapEntry { pc: 1, trap: 2, cycles: 3 }]),
    ]);
    let none = run.listings(0, 0, &regs());
    assert!(none.history.is_none() && none.traps.is_none());
    let both = run.listings(5, 5, &regs());
    assert!(both
        .history
        .unwrap()
        .ends_with("SR\n--- exception: illegal instruction (vector $010) at cycle 3\n"));
    assert_eq!(both.traps.unwrap(), "PC|Trap|Cycles\n00000001|0002|3\n");
}

#[test]
fn a_clock_takes_one_screenshot_for_each_stretch() {
    let mut clock = ShotClock::new(7);
    let mut taken = 0;
    let mut before = 0;
    for cycles in (0..200).step_by(3) {
        let due = clock.take_due(cycles);
        assert_eq!(due, cycles / 7 > before / 7);
        before = cycles;
        if due {
            taken += 1;
        }
    }
    assert_eq!(taken, 198 / 7);
}

#[test]
fn a_schedule_knows_where_it_would_leave_the_clock() {
    let mut clock = ShotClock::new(u64::MAX / 2 + 1);
    assert!(clock.has_room(0));
    assert!(!clock.has_room(u64::MAX));
    assert!(!clock.take_due(0));
    assert!(ShotClock::new(0).has_room(u64::MAX));
    assert!(ShotClock::new(u64::MAX).has_room(u64::MAX - 1));
    assert!(ShotClock::new(1).has_room(u64::MAX));
}
