//! A run of the emulator: when it ends, when keys move, and when the screen is recorded.

use vstd::prelude::*;
use crate::history::{history_text, traps_text, write_history, write_traps};
use crate::observe::{
    after_all, any_stops, drain_events, law_drains_add_up, law_stop_is_a_status_report, Event,
    Observed, Seen,
};
use crate::regs::Regs;
use crate::screenshot::Frame;
use crate::script::{
    by_time, due_count, law_due_in_steps, law_due_is_what_time_has_reached, KeyMove, KeyScript,
};

verus! {

/// When screenshots fall due: every so many ticks, or never.
pub struct ShotClock {
    every: u64,
    next: u64,
}

impl ShotClock {
    #[verifier::type_invariant]
    spec fn valid(self) -> bool {
        self.on_schedule()
    }

    /// How many ticks lie between screenshots; 0 if there are none.
    pub closed spec fn every(self) -> u64 {
        self.every
    }

    /// When the next one falls due.
    pub closed spec fn next(self) -> u64 {
        self.next
    }

    /// Whether the next screenshot falls on a multiple of the distance, and not on zero.
    pub open spec fn on_schedule(self) -> bool {
        self.every() > 0 ==> self.next() > 0 && self.next() % self.every() == 0
    }

    /// Whether a screenshot is due at `cycles`.
    pub open spec fn is_due(self, cycles: u64) -> bool {
        self.every() > 0 && cycles >= self.next()
    }

    /// A clock of which the first screenshot falls due after `every` ticks.
    pub fn new(every: u64) -> (clock: ShotClock)
        ensures
            clock.every() == every,
            clock.next() == every,
            clock.on_schedule(),
    {
        assert(every > 0 ==> every % every == 0) by (nonlinear_arith);
        ShotClock { every, next: every }
    }

    /// Whether the schedule can go on if a screenshot is due at `cycles`.
    pub fn has_room(&self, cycles: u64) -> (room: bool)
        ensures
            room == (self.is_due(cycles) ==> self.next() + self.every() <= u64::MAX),
    {
        self.every == 0 || cycles < self.next || self.next <= u64::MAX - self.every
    }

    /// Takes the screenshot that is due at `cycles`, if one is, off the schedule.
    pub fn take_due(&mut self, cycles: u64) -> (due: bool)
        requires
            old(self).is_due(cycles) ==> old(self).next() + old(self).every() <= u64::MAX,
        ensures
            due == old(self).is_due(cycles),
            final(self).every() == old(self).every(),
            final(self).next() == old(self).next() + if due {
                old(self).every() as int
            } else {
                0
            },
            final(self).on_schedule(),
    {
        proof {
            use_type_invariant(&*self);
        }
        let every: u64 = self.every;
        let next: u64 = self.next;
        if every > 0 && cycles >= next {
            proof {
                vstd::arithmetic::div_mod::lemma_mod_add_multiples_vanish(next as int, every as int);
            }
            *self = ShotClock { every, next: next + every };
            true
        } else {
            false
        }
    }
}

/// A run of the emulator.
pub struct Run {
    /// After how many ticks it ends
    pub total: u64,
    /// When screenshots fall due
    pub shots: ShotClock,
    /// Which keys are still to move
    pub keys: KeyScript,
    /// The latest picture of the screen
    pub latest: Option<Frame>,
    /// What has been seen from the emulator
    pub obs: Observed,
}

/// The state of a run.
pub struct RunState {
    pub total: u64,
    pub shot_every: u64,
    pub next_shot: u64,
    pub pending: Seq<KeyMove>,
    pub latest: Option<Frame>,
    pub seen: Seen,
}

impl View for Run {
    type V = RunState;

    open spec fn view(&self) -> RunState {
        RunState {
            total: self.total,
            shot_every: self.shots.every(),
            next_shot: self.shots.next(),
            pending: self.keys.pending(),
            latest: self.latest,
            seen: self.obs@,
        }
    }
}

impl RunState {
    /// How many of the pending key movements are made at `now`, where `events` are pending:
    /// those that are due, or none if the emulator stopped.
    pub open spec fn moved_count(self, now: u64, events: Seq<Event>) -> int {
        if any_stops(events) {
            0
        } else {
            due_count(self.pending, now) as int
        }
    }

    /// The key movements that are made at `now`, where `events` are pending.
    pub open spec fn moved(self, now: u64, events: Seq<Event>) -> Seq<KeyMove> {
        self.pending.take(self.moved_count(now, events))
    }

    /// The state of the run once it has taken the picture `frame`, if there is one, and
    /// `events`, and has made the movements that are due at `now`.
    pub open spec fn prepared(
        self,
        now: u64,
        frame: Option<Frame>,
        events: Seq<Event>,
    ) -> RunState {
        RunState {
            pending: self.pending.skip(self.moved_count(now, events)),
            latest: if frame is Some {
                frame
            } else {
                self.latest
            },
            seen: after_all(self.seen, events),
            ..self
        }
    }

    /// Whether a screenshot is due at `cycles`.
    pub open spec fn shot_due(self, cycles: u64) -> bool {
        self.shot_every > 0 && cycles >= self.next_shot
    }

    /// The state of the run after a tick that ended at `cycles`.
    pub open spec fn ticked(self, cycles: u64) -> RunState {
        RunState {
            next_shot: if self.shot_due(cycles) {
                (self.next_shot + self.shot_every) as u64
            } else {
                self.next_shot
            },
            ..self
        }
    }
}

/// The listings that a run ends with. One of which no entries are wanted is missing.
pub struct Listings {
    pub history: Option<String>,
    pub traps: Option<String>,
}

impl Run {
    /// A run of `total` ticks with a screenshot every `shot_every`, before its start.
    pub fn new(total: u64, shot_every: u64, keys: KeyScript) -> (run: Run)
        ensures
            run@ == (RunState {
                total,
                shot_every,
                next_shot: shot_every,
                pending: keys.pending(),
                latest: None,
                seen: Seen { ram: seq![], regs: None, history: seq![], traps: seq![] },
            }),
    {
        let obs: Observed = Default::default();
        Run { total, shots: ShotClock::new(shot_every), keys, latest: None, obs }
    }

    /// Whether the run goes on at `cycles`.
    pub fn goes_on(&self, cycles: u64) -> (on: bool)
        ensures
            on == (cycles < self@.total),
    {
        cycles < self.total
    }

    /// What is done before the emulator ticks at `now`: takes the new picture of the screen, if
    /// there is one, and the pending events. Returns the keys to move, or nothing if the
    /// emulator stopped and the run ends.
    pub fn before_tick(&mut self, now: u64, frame: Option<Frame>, events: Vec<Event>) -> (r: Option<
        Vec<KeyMove>,
    >)
        requires
            forall|i: int| 0 <= i < events.len() ==> (#[trigger] events@[i]).in_bounds(),
        ensures
            final(self)@ == old(self)@.prepared(now, frame, events@),
            r is None <==> any_stops(events@),
            r matches Some(keys) ==> keys@ == old(self)@.moved(now, events@),
    {
        if frame.is_some() {
            self.latest = frame;
        }
        assert(self@.pending.skip(0) =~= self@.pending);
        if drain_events(events, &mut self.obs) {
            None
        } else {
            Some(self.keys.all_due(now))
        }
    }

    /// What is done after the emulator ticked, at `cycles`. Returns whether to record the
    /// latest picture of the screen; there is one in that case.
    pub fn after_tick(&mut self, cycles: u64) -> (record: bool)
        requires
            old(self)@.shot_due(cycles) ==> old(self)@.next_shot + old(self)@.shot_every
                <= u64::MAX,
        ensures
            final(self)@ == old(self)@.ticked(cycles),
            record == (old(self)@.shot_due(cycles) && old(self)@.latest is Some),
    {
        let due = self.shots.take_due(cycles);
        due && self.latest.is_some()
    }

    /// What is done when the run is over: takes the events that are still pending.
    pub fn finish(&mut self, events: Vec<Event>)
        requires
            forall|i: int| 0 <= i < events.len() ==> (#[trigger] events@[i]).in_bounds(),
        ensures
            final(self)@ == (RunState {
                seen: after_all(old(self)@.seen, events@),
                ..old(self)@
            }),
    {
        drain_events(events, &mut self.obs);
    }

    /// Lists the last `history` entries of the instruction history and the last `traps` traps.
    pub fn listings(&self, history: usize, traps: usize, default_regs: &Regs) -> (r: Listings)
        ensures
            r.history is Some <==> history > 0,
            r.history matches Some(text) ==> text@ == history_text(
                self@.seen.history,
                history as nat,
                *default_regs,
            ),
            r.traps is Some <==> traps > 0,
            r.traps matches Some(text) ==> text@ == traps_text(self@.seen.traps, traps as nat),
    {
        let history = if history > 0 {
            let mut text = String::new();
            write_history(&mut text, &self.obs.history, history, default_regs);
            assert(text@ =~= history_text(self@.seen.history, history as nat, *default_regs));
            Some(text)
        } else {
            None
        };
        let traps = if traps > 0 {
            let mut text = String::new();
            write_traps(&mut text, &self.obs.traps, traps);
            assert(text@ =~= traps_text(self@.seen.traps, traps as nat));
            Some(text)
        } else {
            None
        };
        Listings { history, traps }
    }
}

/// One turn of a run: what is pending at `now`, and when the tick that follows has ended.
pub struct Turn {
    pub now: u64,
    pub frame: Option<Frame>,
    pub events: Seq<Event>,
    pub cycles: u64,
}

/// The state of a run from `start` after `turns`.
pub open spec fn played(start: RunState, turns: Seq<Turn>) -> RunState
    decreases turns.len(),
{
    if turns.len() == 0 {
        start
    } else {
        let t = turns.last();
        played(start, turns.drop_last()).prepared(t.now, t.frame, t.events).ticked(t.cycles)
    }
}

/// The key movements that a run from `start` makes in `turns`.
pub open spec fn keys_moved(start: RunState, turns: Seq<Turn>) -> Seq<KeyMove>
    decreases turns.len(),
{
    if turns.len() == 0 {
        seq![]
    } else {
        let t = turns.last();
        keys_moved(start, turns.drop_last()) + played(start, turns.drop_last()).moved(
            t.now,
            t.events,
        )
    }
}

/// The events of `turns`, in order.
pub open spec fn events_of(turns: Seq<Turn>) -> Seq<Event>
    decreases turns.len(),
{
    if turns.len() == 0 {
        seq![]
    } else {
        events_of(turns.drop_last()) + turns.last().events
    }
}

/// A run sees every event, in the order in which they came.
pub proof fn law_run_sees_every_event(start: RunState, turns: Seq<Turn>)
    ensures
        played(start, turns).seen == after_all(start.seen, events_of(turns)),
    decreases turns.len(),
{
    if turns.len() > 0 {
        let t = turns.last();
        law_run_sees_every_event(start, turns.drop_last());
        law_drains_add_up(start.seen, events_of(turns.drop_last()), t.events);
    }
}

/// A run whose time does not go back and that is not stopped moves exactly the keys that its
/// script has for the time it reached: each once, in order, and none before its time.
pub proof fn law_run_keeps_to_the_script(start: RunState, turns: Seq<Turn>)
    requires
        turns.len() > 0,
        forall|i: int, j: int| 0 <= i < j < turns.len() ==> turns[i].now <= turns[j].now,
        forall|i: int| 0 <= i < turns.len() ==> !any_stops((#[trigger] turns[i]).events),
    ensures
        ({
            let made = due_count(start.pending, turns.last().now) as int;
            &&& made <= start.pending.len()
            &&& keys_moved(start, turns) == start.pending.take(made)
            &&& played(start, turns).pending == start.pending.skip(made)
        }),
    decreases turns.len(),
{
    let t = turns.last();
    let rest = turns.drop_last();
    let all = start.pending;
    assert(turns[turns.len() - 1] == t);
    law_due_in_steps(all, t.now, t.now);
    if rest.len() == 0 {
        assert(rest =~= Seq::<Turn>::empty());
        assert(keys_moved(start, rest) =~= Seq::<KeyMove>::empty());
        assert(played(start, rest) == start);
        assert(keys_moved(start, turns) =~= all.take(due_count(all, t.now) as int));
    } else {
        assert forall|i: int| 0 <= i < rest.len() implies !any_stops(
            (#[trigger] rest[i]).events,
        ) by {
            assert(rest[i] == turns[i]);
        }
        law_run_keeps_to_the_script(start, rest);
        let before = rest.last().now;
        let n = due_count(all, before) as int;
        assert(turns[rest.len() - 1] == rest.last());
        law_due_in_steps(all, before, t.now);
        let m = due_count(all, t.now) as int;
        assert(all.take(n) + all.skip(n).take(m - n) =~= all.take(m));
        assert(all.skip(n).skip(m - n) =~= all.skip(m));
    }
}

/// Where the next screenshot falls on the first multiple of its distance behind `before`, and
/// the tick that follows is no longer than that distance, a screenshot is due after the tick
/// if and only if it passed or reached a multiple, and the next one again falls on the first
/// multiple behind: there is one screenshot for each stretch of that length.
pub proof fn law_a_shot_for_each_stretch(run: RunState, before: u64, cycles: u64)
    requires
        run.shot_every > 0,
        run.next_shot == (before / run.shot_every + 1) * run.shot_every,
        before <= cycles <= before + run.shot_every,
        run.next_shot + run.shot_every <= u64::MAX,
    ensures
        run.shot_due(cycles) <==> cycles / run.shot_every > before / run.shot_every,
        run.ticked(cycles).next_shot == (cycles / run.shot_every + 1) * run.shot_every,
{
    let d = run.shot_every as int;
    let b = before as int;
    let c = cycles as int;
    let q = b / d;
    let p = c / d;
    vstd::arithmetic::div_mod::lemma_fundamental_div_mod(b, d);
    vstd::arithmetic::div_mod::lemma_fundamental_div_mod(c, d);
    assert(b == d * q + b % d && 0 <= b % d < d);
    assert(c == d * p + c % d && 0 <= c % d < d);
    assert(p == q || p == q + 1) by (nonlinear_arith)
        requires
            d > 0,
            b == d * q + b % d,
            0 <= b % d < d,
            c == d * p + c % d,
            0 <= c % d < d,
            b <= c <= b + d,
    ;
    assert((q + 1) * d == d * q + d) by (nonlinear_arith);
    assert((q + 2) * d == d * q + d + d) by (nonlinear_arith);
    assert(p == q + 1 ==> d * p == d * q + d) by (nonlinear_arith);
}

/// Where the tick before the `i`-th of `turns` ended; a run starts at 0.
pub open spec fn cycles_before(turns: Seq<Turn>, i: int) -> u64 {
    if i <= 0 {
        0
    } else {
        turns[i - 1].cycles
    }
}

/// Through a whole run of ticks no longer than the distance between screenshots, the next
/// screenshot falls on the first multiple of that distance behind where the run has come to.
pub proof fn law_shots_keep_pace(start: RunState, turns: Seq<Turn>)
    requires
        start.shot_every > 0,
        start.next_shot == start.shot_every,
        forall|i: int|
            0 <= i < turns.len() ==> cycles_before(turns, i) <= (#[trigger] turns[i]).cycles
                <= cycles_before(turns, i) + start.shot_every,
        forall|i: int|
            0 <= i < turns.len() ==> (#[trigger] turns[i]).cycles + 2 * start.shot_every
                <= u64::MAX,
    ensures
        played(start, turns).shot_every == start.shot_every,
        played(start, turns).next_shot == (cycles_before(turns, turns.len() as int)
            / start.shot_every + 1) * start.shot_every,
    decreases turns.len(),
{
    let d = start.shot_every as int;
    if turns.len() == 0 {
        assert(0int / d == 0) by (nonlinear_arith)
            requires
                d > 0,
        ;
        assert((0int / d + 1) * d == d) by (nonlinear_arith)
            requires
                0int / d == 0,
        ;
    } else {
        let rest = turns.drop_last();
        let t = turns.last();
        let n = turns.len() - 1;
        assert forall|i: int| 0 <= i < rest.len() implies cycles_before(rest, i)
            == cycles_before(turns, i) && rest[i] == turns[i] by {}
        law_shots_keep_pace(start, rest);
        let before = cycles_before(turns, n);
        assert(before == cycles_before(rest, rest.len() as int));
        assert(turns[n] == t);
        let run = played(start, rest).prepared(t.now, t.frame, t.events);
        vstd::arithmetic::div_mod::lemma_fundamental_div_mod(before as int, d);
        assert((before as int / d + 1) * d <= before + d) by (nonlinear_arith)
            requires
                before as int == d * (before as int / d) + before as int % d,
                before as int % d >= 0,
        ;
        law_a_shot_for_each_stretch(run, before, t.cycles);
    }
}

/// After any turns, the latest picture of a run is that of the last turn that brought one; where
/// none did, it is the one that the run started with.
pub proof fn law_latest_picture_is_the_last_brought(start: RunState, turns: Seq<Turn>, i: int)
    ensures
        0 <= i < turns.len() && turns[i].frame is Some && (forall|j: int|
            i < j < turns.len() ==> (#[trigger] turns[j]).frame is None) ==> played(
            start,
            turns,
        ).latest == turns[i].frame,
        (forall|j: int| 0 <= j < turns.len() ==> (#[trigger] turns[j]).frame is None) ==> played(
            start,
            turns,
        ).latest == start.latest,
    decreases turns.len(),
{
    if turns.len() > 0 {
        let rest = turns.drop_last();
        law_latest_picture_is_the_last_brought(start, rest, i);
        assert(turns[turns.len() - 1] == turns.last());
        assert forall|j: int| 0 <= j < rest.len() implies rest[j] == turns[j] by {}
    }
}

/// Whatever comes of the turn before a tick, a new picture replaces the one before, whatever
/// its size, and without a new one the old one stays. The length of the run and the schedule of
/// its screenshots stay as they are.
pub proof fn law_new_picture_replaces_the_old(
    run: &mut Run,
    now: u64,
    frame: Option<Frame>,
    events: Vec<Event>,
    r: Option<Vec<KeyMove>>,
)
    requires
        call_ensures(Run::before_tick, (run, now, frame, events), r),
    ensures
        frame is Some ==> final(run).latest == frame,
        frame is None ==> final(run).latest == old(run).latest,
        final(run).total == old(run).total,
        final(run).shots.every() == old(run).shots.every(),
        final(run).shots.next() == old(run).shots.next(),
{
    assert(final(run)@ == old(run)@.prepared(now, frame, events@));
    assert(final(run)@.latest == final(run).latest);
    assert(old(run)@.latest == old(run).latest);
    assert(final(run)@.total == final(run).total);
    assert(old(run)@.total == old(run).total);
}

/// Whatever comes of the turn before a tick, the run ends if and only if some status report has
/// the emulator not running after more than 100 cycles, and no key is taken off the script then.
/// Otherwise the keys to move are those at the start of the script whose tick has come; what
/// stays in the script is all the rest, in order.
pub proof fn law_turn_moves_the_keys_that_are_due(
    run: &mut Run,
    now: u64,
    frame: Option<Frame>,
    events: Vec<Event>,
    r: Option<Vec<KeyMove>>,
)
    requires
        call_ensures(Run::before_tick, (run, now, frame, events), r),
        by_time(old(run).keys.pending()),
    ensures
        r is None <==> exists|i: int|
            0 <= i < events@.len() && (#[trigger] events@[i] matches Event::Status {
                running,
                cycles,
                regs,
            } && !running && cycles > 100),
        r is None ==> final(run).keys.pending() == old(run).keys.pending(),
        r matches Some(keys) ==> {
            &&& keys@ + final(run).keys.pending() == old(run).keys.pending()
            &&& forall|i: int| 0 <= i < keys@.len() ==> (#[trigger] keys@[i]).tick <= now
            &&& forall|i: int|
                0 <= i < final(run).keys.pending().len() ==> (
                #[trigger] final(run).keys.pending()[i]).tick > now
        },
{
    let all = old(run).keys.pending();
    let rest = final(run).keys.pending();
    assert(final(run)@ == old(run)@.prepared(now, frame, events@));
    assert(r is None <==> any_stops(events@));
    law_stop_is_a_status_report(events@);
    law_due_is_what_time_has_reached(all, now);
    assert(final(run)@.pending == rest);
    assert(old(run)@.pending == all);
    match r {
        None => {
            assert(rest == all.skip(0));
            assert(all.skip(0) =~= all);
        },
        Some(keys) => {
            let n = due_count(all, now) as int;
            assert(keys@ == all.take(n));
            assert(rest == all.skip(n));
            assert(all.take(n) + all.skip(n) =~= all);
            assert forall|i: int| 0 <= i < keys@.len() implies (#[trigger] keys@[i]).tick
                <= now by {
                assert(keys@[i] == all[i]);
            }
            assert forall|i: int| 0 <= i < rest.len() implies (#[trigger] rest[i]).tick > now by {
                assert(rest[i] == all[n + i]);
            }
        },
    }
}

/// Whatever comes of a tick, the picture is recorded if and only if there is one and screenshots
/// are taken at all and the run has come to the next of them. That one is then done with, also
/// where there was no picture: the next falls due one distance later, however far the run has
/// come. Nothing else changes.
pub proof fn law_tick_records_what_is_due(run: &mut Run, cycles: u64, record: bool)
    requires
        call_ensures(Run::after_tick, (run, cycles), record),
        old(run).shots.next() <= cycles ==> old(run).shots.next() + old(run).shots.every()
            <= u64::MAX,
    ensures
        ({
            let every = old(run).shots.every();
            let next = old(run).shots.next();
            &&& record <==> old(run).latest is Some && every > 0 && next <= cycles
            &&& every > 0 && next <= cycles ==> final(run).shots.next() - next == every
            &&& every == 0 || cycles < next ==> final(run).shots.next() == next
            &&& final(run).shots.every() == every
            &&& final(run).latest == old(run).latest
            &&& final(run).total == old(run).total
            &&& final(run).keys.pending() == old(run).keys.pending()
            &&& final(run).obs@ == old(run).obs@
        }),
{
    assert(final(run)@ == old(run)@.ticked(cycles));
    let b = old(run)@;
    let a = final(run)@;
    assert(b.latest == old(run).latest && a.latest == final(run).latest);
    assert(b.total == old(run).total && a.total == final(run).total);
    assert(b.shot_every == old(run).shots.every() && a.shot_every == final(run).shots.every());
    assert(b.next_shot == old(run).shots.next() && a.next_shot == final(run).shots.next());
    assert(b.pending == old(run).keys.pending() && a.pending == final(run).keys.pending());
    assert(b.seen == old(run).obs@ && a.seen == final(run).obs@);
}

/// A run that has gone past several screenshots in one tick takes them one by one in the ticks
/// that follow, until it has caught up.
pub proof fn law_late_shots_are_caught_up(run: RunState, cycles: u64, later: u64)
    requires
        run.next_shot <= cycles ==> run.next_shot + run.shot_every <= u64::MAX,
        cycles <= later,
    ensures
        run.shot_due(cycles) ==> run.shot_due(later),
        run.shot_due(cycles) ==> (run.ticked(cycles).shot_due(later) <==> later - run.next_shot
            >= run.shot_every),
        !run.shot_due(cycles) ==> run.ticked(cycles) == run,
        run.shot_every == 0 ==> !run.shot_due(cycles),
{
}

/// Neither turns nor ticks change how long a run is and how far its screenshots are apart.
pub proof fn law_run_keeps_its_settings(start: RunState, turns: Seq<Turn>)
    ensures
        played(start, turns).total == start.total,
        played(start, turns).shot_every == start.shot_every,
    decreases turns.len(),
{
    if turns.len() > 0 {
        law_run_keeps_its_settings(start, turns.drop_last());
    }
}

/// A turn in which the emulator turns out to have stopped moves no key and takes none off the
/// script, but it takes the picture and the events.
pub proof fn law_stopped_turn_moves_no_key(
    run: RunState,
    now: u64,
    frame: Option<Frame>,
    events: Seq<Event>,
    i: int,
)
    requires
        0 <= i < events.len(),
        events[i] matches Event::Status { running, cycles, regs } && !running && cycles > 100,
    ensures
        run.moved(now, events).len() == 0,
        run.prepared(now, frame, events).pending == run.pending,
        frame is Some ==> run.prepared(now, frame, events).latest == frame,
        run.prepared(now, frame, events).seen == after_all(run.seen, events),
{
    law_stop_is_a_status_report(events);
    assert(any_stops(events));
    assert(run.pending.skip(0) =~= run.pending);
}

/// Whatever run is made, it is one of which nothing has been seen and no picture taken, with its
/// whole script before it and its first screenshot one distance away.
pub proof fn law_fresh_run_has_seen_nothing(
    total: u64,
    shot_every: u64,
    keys: KeyScript,
    run: Run,
)
    requires
        call_ensures(Run::new, (total, shot_every, keys), run),
    ensures
        run.total == total,
        run.shots.every() == shot_every,
        run.shots.next() == shot_every,
        run.keys.pending() == keys.pending(),
        run.latest is None,
        run.obs.ram@.len() == 0,
        run.obs.regs is None,
        run.obs.history@.len() == 0,
        run.obs.traps@.len() == 0,
{
    let state = run@;
    assert(state.total == run.total && state.latest == run.latest);
    assert(state.shot_every == run.shots.every() && state.next_shot == run.shots.next());
    assert(state.pending == run.keys.pending() && state.seen == run.obs@);
}

/// Whatever a run answers, it goes on as long as it has not come to its end.
pub proof fn law_run_goes_on_up_to_its_end(run: &Run, cycles: u64, on: bool)
    requires
        call_ensures(Run::goes_on, (run, cycles), on),
    ensures
        on <==> cycles < run.total,
{
    assert(run@.total == run.total);
}

/// Whatever the end of a run does, it takes the events that are still pending and leaves the
/// picture, the script and the settings.
pub proof fn law_end_takes_the_last_events(run: &mut Run, events: Vec<Event>)
    requires
        call_ensures(Run::finish, (run, events), ()),
    ensures
        final(run).obs@ == after_all(old(run).obs@, events@),
        final(run).latest == old(run).latest,
        final(run).total == old(run).total,
        final(run).keys.pending() == old(run).keys.pending(),
        final(run).shots.every() == old(run).shots.every(),
        final(run).shots.next() == old(run).shots.next(),
{
    let b = old(run)@;
    let a = final(run)@;
    assert(b.latest == old(run).latest && a.latest == final(run).latest);
    assert(b.total == old(run).total && a.total == final(run).total);
    assert(b.shot_every == old(run).shots.every() && a.shot_every == final(run).shots.every());
    assert(b.next_shot == old(run).shots.next() && a.next_shot == final(run).shots.next());
    assert(b.pending == old(run).keys.pending() && a.pending == final(run).keys.pending());
    assert(b.seen == old(run).obs@ && a.seen == final(run).obs@);
}

/// Whatever listings a run gives, each is there if and only if any entries are wanted of it,
/// however many that are, and one is not affected by how many are wanted of the other.
pub proof fn law_listings_are_those_wanted(
    run: &Run,
    history: usize,
    traps: usize,
    default_regs: &Regs,
    r: Listings,
)
    requires
        call_ensures(Run::listings, (run, history, traps, default_regs), r),
    ensures
        history == 0 <==> r.history is None,
        traps == 0 <==> r.traps is None,
        r.history matches Some(text) ==> text@ == history_text(
            run.obs.history@,
            history as nat,
            *default_regs,
        ),
        r.traps matches Some(text) ==> text@ == traps_text(run.obs.traps@, traps as nat),
{
    assert(run@.seen == run.obs@);
    assert(run.obs@.history == run.obs.history@);
    assert(run.obs@.traps == run.obs.traps@);
}

/// Whatever a clock answers at `cycles`, a screenshot is due if screenshots are taken at all and
/// its time has come; the next one is then one distance later. Otherwise the clock stays.
pub proof fn law_clock_goes_by_its_distance(clock: &mut ShotClock, cycles: u64, due: bool)
    requires
        call_ensures(ShotClock::take_due, (clock, cycles), due),
    ensures
        due <==> old(clock).every() > 0 && old(clock).next() <= cycles,
        due ==> final(clock).next() - old(clock).next() == old(clock).every(),
        !due ==> final(clock).next() == old(clock).next(),
        final(clock).every() == old(clock).every(),
{
}

/// Whatever clock is made, its first screenshot falls due after one distance.
pub proof fn law_first_shot_is_one_distance_away(every: u64, clock: ShotClock)
    requires
        call_ensures(ShotClock::new, (every,), clock),
    ensures
        clock.every() == every,
        clock.next() == every,
{
}

/// Whatever a clock answers, it has room unless a due screenshot would push the next one past
/// what a tick count can hold.
pub proof fn law_clock_lacks_room_only_at_the_end_of_time(
    clock: &ShotClock,
    cycles: u64,
    room: bool,
)
    requires
        call_ensures(ShotClock::has_room, (clock, cycles), room),
    ensures
        !room <==> clock.every() > 0 && clock.next() <= cycles && clock.next() + clock.every()
            > u64::MAX,
{
}

} // verus!
