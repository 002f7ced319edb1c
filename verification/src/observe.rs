//! What the runner has seen from the emulator.

use vstd::prelude::*;
use crate::history::{HistoryEntry, TrapEntry};
use crate::regs::Regs;

verus! {

/// Something that the emulator reports.
pub enum Event {
    /// What RAM of `ram_len` bytes holds from `addr` on
    Memory { addr: u32, bytes: Vec<u8>, ram_len: usize },
    /// Whether it runs, after how many cycles, and with which registers
    Status { running: bool, cycles: u64, regs: Regs },
    /// The latest instructions
    InstructionHistory(Vec<HistoryEntry>),
    /// The latest A-line traps
    SystrapHistory(Vec<TrapEntry>),
    /// Anything that the runner does not follow
    Other,
}

/// What the runner has seen from the emulator so far.
pub struct Observed {
    /// Guest RAM, mirrored from dirty-page snapshots
    pub ram: Vec<u8>,
    /// Register file from the latest status update
    pub regs: Option<Regs>,
    /// Latest instruction history snapshot
    pub history: Vec<HistoryEntry>,
    /// Latest A-line trap history snapshot
    pub traps: Vec<TrapEntry>,
}

/// What the runner has seen, as values.
#[verifier::ext_equal]
pub struct Seen {
    pub ram: Seq<u8>,
    pub regs: Option<Regs>,
    pub history: Seq<HistoryEntry>,
    pub traps: Seq<TrapEntry>,
}

impl View for Observed {
    type V = Seen;

    open spec fn view(&self) -> Seen {
        Seen { ram: self.ram@, regs: self.regs, history: self.history@, traps: self.traps@ }
    }
}

/// `ram` cut or filled up with zeros to `len` bytes.
pub open spec fn resized(ram: Seq<u8>, len: nat) -> Seq<u8> {
    Seq::new(
        len,
        |i: int|
            if i < ram.len() {
                ram[i]
            } else {
                0
            },
    )
}

/// `ram` with `bytes` in it from `at` on.
pub open spec fn overlaid(ram: Seq<u8>, at: int, bytes: Seq<u8>) -> Seq<u8> {
    Seq::new(
        ram.len(),
        |i: int|
            if at <= i < at + bytes.len() {
                bytes[i - at]
            } else {
                ram[i]
            },
    )
}

impl Event {
    /// Whether what a memory report holds lies in the RAM that it speaks of.
    pub open spec fn in_bounds(self) -> bool {
        match self {
            Event::Memory { addr, bytes, ram_len } => addr + bytes.len() <= ram_len,
            _ => true,
        }
    }

    /// Whether the report says that the emulator stopped. One that it makes before it has
    /// run for more than 100 cycles does not count.
    pub open spec fn stops(self) -> bool {
        match self {
            Event::Status { running, cycles, regs } => !running && cycles > 100,
            _ => false,
        }
    }
}

/// What has been seen once `event` is added to `seen`.
pub open spec fn after(seen: Seen, event: Event) -> Seen {
    match event {
        Event::Memory { addr, bytes, ram_len } => Seen {
            ram: overlaid(resized(seen.ram, ram_len as nat), addr as int, bytes@),
            ..seen
        },
        Event::Status { running, cycles, regs } => Seen { regs: Some(regs), ..seen },
        Event::InstructionHistory(h) => Seen { history: h@, ..seen },
        Event::SystrapHistory(t) => Seen { traps: t@, ..seen },
        Event::Other => seen,
    }
}

/// What has been seen once `events` are added to `seen`, one after the other.
pub open spec fn after_all(seen: Seen, events: Seq<Event>) -> Seen
    decreases events.len(),
{
    if events.len() == 0 {
        seen
    } else {
        after(after_all(seen, events.drop_last()), events.last())
    }
}

/// Whether one of `events` says that the emulator stopped.
pub open spec fn any_stops(events: Seq<Event>) -> bool {
    exists|i: int| 0 <= i < events.len() && #[trigger] events[i].stops()
}

impl Default for Observed {
    fn default() -> (obs: Observed)
        ensures
            obs@ == (Seen { ram: seq![], regs: None, history: seq![], traps: seq![] }),
    {
        let obs = Observed { ram: Vec::new(), regs: None, history: Vec::new(), traps: Vec::new() };
        assert(obs@ =~= (Seen { ram: seq![], regs: None, history: seq![], traps: seq![] }));
        obs
    }
}

impl Observed {
    /// Puts `bytes` into the mirror of RAM, which is `ram_len` bytes long.
    fn mirror(&mut self, addr: u32, bytes: &Vec<u8>, ram_len: usize)
        requires
            addr + bytes.len() <= ram_len,
        ensures
            final(self)@ == (Seen {
                ram: overlaid(resized(old(self).ram@, ram_len as nat), addr as int, bytes@),
                ..old(self)@
            }),
    {
        if self.ram.len() != ram_len {
            self.ram.resize(ram_len, 0);
        }
        let ghost whole = resized(old(self).ram@, ram_len as nat);
        assert(self.ram@ =~= whole);
        let start = addr as usize;
        assert(self.ram@ =~= overlaid(whole, addr as int, bytes@.take(0)));
        for i in 0..bytes.len()
            invariant
                start == addr,
                addr + bytes.len() <= ram_len,
                whole.len() == ram_len,
                self.ram@ == overlaid(whole, addr as int, bytes@.take(i as int)),
                self.regs == old(self).regs,
                self.history == old(self).history,
                self.traps == old(self).traps,
        {
            self.ram.set(start + i, bytes[i]);
            assert(self.ram@ =~= overlaid(whole, addr as int, bytes@.take(i + 1)));
        }
        assert(bytes@.take(bytes.len() as int) =~= bytes@);
    }

    /// Adds `event` to what has been seen. Returns true if it says that the emulator stopped.
    pub fn observe(&mut self, event: Event) -> (stopped: bool)
        requires
            event.in_bounds(),
        ensures
            final(self)@ == after(old(self)@, event),
            stopped == event.stops(),
    {
        match event {
            Event::Memory { addr, bytes, ram_len } => {
                self.mirror(addr, &bytes, ram_len);
                false
            },
            Event::Status { running, cycles, regs } => {
                self.regs = Some(regs);
                !running && cycles > 100
            },
            Event::InstructionHistory(h) => {
                self.history = h;
                false
            },
            Event::SystrapHistory(t) => {
                self.traps = t;
                false
            },
            Event::Other => false,
        }
    }
}

/// Drains pending emulator events into `obs`. Returns true if the emulator
/// reported that it stopped (e.g. halted on a double fault).
pub fn drain_events(events: Vec<Event>, obs: &mut Observed) -> (stopped: bool)
    requires
        forall|i: int| 0 <= i < events.len() ==> (#[trigger] events@[i]).in_bounds(),
    ensures
        final(obs)@ == after_all(old(obs)@, events@),
        stopped == any_stops(events@),
{
    let mut stopped = false;
    let ghost all = events@;
    assert(all.take(0) =~= Seq::<Event>::empty());
    for event in it: events
        invariant
            it.seq() == all,
            forall|i: int| 0 <= i < all.len() ==> (#[trigger] all[i]).in_bounds(),
            obs@ == after_all(old(obs)@, all.take(it.index() as int)),
            stopped == any_stops(all.take(it.index() as int)),
    {
        let ghost n = it.index() as int;
        let ghost was = stopped;
        assert(all[n] == event);
        if obs.observe(event) {
            stopped = true;
        }
        proof {
            let now = all.take(n + 1);
            assert(now.drop_last() =~= all.take(n));
            assert(now.last() == all[n]);
            if was {
                let i = choose|i: int| 0 <= i < n && #[trigger] all.take(n)[i].stops();
                assert(now[i].stops());
            }
            if all[n].stops() {
                assert(now[n].stops());
            }
            if any_stops(now) && !all[n].stops() {
                let i = choose|i: int| 0 <= i < now.len() && #[trigger] now[i].stops();
                assert(all.take(n)[i].stops());
            }
        }
    }
    assert(all.take(all.len() as int) =~= all);
    stopped
}

/// A memory report is mirrored: RAM has the length that it gives, what it holds can be read
/// back, what was there before stays around it, and new RAM around it is zero.
pub proof fn law_memory_reads_back(seen: Seen, addr: u32, bytes: Vec<u8>, ram_len: usize)
    requires
        addr + bytes.len() <= ram_len,
    ensures
        (Event::Memory { addr, bytes, ram_len }).in_bounds(),
        ({
            let ram = after(seen, Event::Memory { addr, bytes, ram_len }).ram;
            &&& ram.len() == ram_len
            &&& ram.subrange(addr as int, addr + bytes.len()) == bytes@
            &&& forall|i: int|
                0 <= i < ram_len && !(addr <= i < addr + bytes.len()) ==> #[trigger] ram[i]
                    == if i < seen.ram.len() {
                    seen.ram[i]
                } else {
                    0
                }
        }),
{
    let ram = after(seen, Event::Memory { addr, bytes, ram_len }).ram;
    assert(ram.subrange(addr as int, addr + bytes.len()) =~= bytes@);
}

/// A later report of the same RAM makes an earlier one of a part of what it covers forgotten.
pub proof fn law_later_report_wins(
    seen: Seen,
    addr: u32,
    bytes: Vec<u8>,
    later_addr: u32,
    later_bytes: Vec<u8>,
    ram_len: usize,
)
    requires
        later_addr <= addr,
        addr + bytes.len() <= later_addr + later_bytes.len() <= ram_len,
    ensures
        ({
            let earlier = Event::Memory { addr, bytes, ram_len };
            let later = Event::Memory { addr: later_addr, bytes: later_bytes, ram_len };
            after(after(seen, earlier), later) == after(seen, later)
        }),
{
    let earlier = Event::Memory { addr, bytes, ram_len };
    let later = Event::Memory { addr: later_addr, bytes: later_bytes, ram_len };
    assert(after(after(seen, earlier), later) =~= after(seen, later));
}

/// Reports of parts of RAM that do not meet can come in either order.
pub proof fn law_separate_reports_commute(
    seen: Seen,
    addr: u32,
    bytes: Vec<u8>,
    other_addr: u32,
    other_bytes: Vec<u8>,
    ram_len: usize,
)
    requires
        addr + bytes.len() <= other_addr,
        other_addr + other_bytes.len() <= ram_len,
    ensures
        ({
            let one = Event::Memory { addr, bytes, ram_len };
            let other = Event::Memory { addr: other_addr, bytes: other_bytes, ram_len };
            after(after(seen, one), other) == after(after(seen, other), one)
        }),
{
    let one = Event::Memory { addr, bytes, ram_len };
    let other = Event::Memory { addr: other_addr, bytes: other_bytes, ram_len };
    assert(after(after(seen, one), other) =~= after(after(seen, other), one));
}

/// It does not matter how events are split over drains, neither for what is seen nor for
/// whether one of the drains reports a stop.
pub proof fn law_drains_add_up(seen: Seen, a: Seq<Event>, b: Seq<Event>)
    ensures
        after_all(seen, a + b) == after_all(after_all(seen, a), b),
        any_stops(a + b) == (any_stops(a) || any_stops(b)),
    decreases b.len(),
{
    if any_stops(a) {
        let i = choose|i: int| 0 <= i < a.len() && #[trigger] a[i].stops();
        assert((a + b)[i].stops());
    }
    if any_stops(b) {
        let i = choose|i: int| 0 <= i < b.len() && #[trigger] b[i].stops();
        assert((a + b)[a.len() + i].stops());
    }
    if any_stops(a + b) {
        let i = choose|i: int| 0 <= i < (a + b).len() && #[trigger] (a + b)[i].stops();
        if i < a.len() {
            assert(a[i].stops());
        } else {
            assert(b[i - a.len()].stops());
        }
    }
    if b.len() == 0 {
        assert(a + b =~= a);
    } else {
        assert((a + b).drop_last() =~= a + b.drop_last());
        law_drains_add_up(seen, a, b.drop_last());
    }
}

/// What is kept of the registers, the instruction history and the traps is what the last
/// report of each gave.
pub proof fn law_latest_report_stays(seen: Seen, events: Seq<Event>, i: int)
    requires
        0 <= i < events.len(),
    ensures
        events[i] matches Event::Status { running, cycles, regs } ==> (forall|j: int|
            i < j < events.len() ==> !(#[trigger] events[j] is Status)) ==> after_all(
            seen,
            events,
        ).regs == Some(regs),
        events[i] matches Event::InstructionHistory(h) ==> (forall|j: int|
            i < j < events.len() ==> !(#[trigger] events[j] is InstructionHistory)) ==> after_all(
            seen,
            events,
        ).history == h@,
        events[i] matches Event::SystrapHistory(t) ==> (forall|j: int|
            i < j < events.len() ==> !(#[trigger] events[j] is SystrapHistory)) ==> after_all(
            seen,
            events,
        ).traps == t@,
    decreases events.len(),
{
    let rest = events.drop_last();
    if i < events.len() - 1 {
        law_latest_report_stays(seen, rest, i);
        assert(events[events.len() - 1] == events.last());
        assert forall|j: int| i < j < rest.len() implies rest[j] == events[j] by {}
    }
}

/// A stop is what a status report tells that has the emulator not running after more than 100
/// cycles, however many they are; nothing else tells one.
pub proof fn law_stop_is_a_status_report(events: Seq<Event>)
    ensures
        any_stops(events) <==> exists|i: int|
            0 <= i < events.len() && (#[trigger] events[i] matches Event::Status {
                running,
                cycles,
                regs,
            } && !running && cycles > 100),
{
    if any_stops(events) {
        let i = choose|i: int| 0 <= i < events.len() && #[trigger] events[i].stops();
        assert(events[i] matches Event::Status { running, cycles, regs } && !running && cycles
            > 100);
    }
    assert forall|i: int|
        0 <= i < events.len() && (#[trigger] events[i] matches Event::Status {
            running,
            cycles,
            regs,
        } && !running && cycles > 100) implies any_stops(events) by {
        assert(events[i].stops());
    }
}

/// Whatever a drain answers, it answers that the emulator stopped if and only if one of its
/// events is a status report with the emulator not running after more than 100 cycles.
pub proof fn law_drain_reports_the_stop(events: Vec<Event>, obs: &mut Observed, stopped: bool)
    requires
        call_ensures(drain_events, (events, obs), stopped),
    ensures
        stopped <==> exists|i: int|
            0 <= i < events@.len() && (#[trigger] events@[i] matches Event::Status {
                running,
                cycles,
                regs,
            } && !running && cycles > 100),
{
    assert(stopped == any_stops(events@));
    law_stop_is_a_status_report(events@);
}

/// The same holds of a single event.
pub proof fn law_event_reports_the_stop(event: Event, obs: &mut Observed, stopped: bool)
    requires
        call_ensures(Observed::observe, (obs, event), stopped),
    ensures
        stopped <==> (event matches Event::Status { running, cycles, regs } && !running && cycles
            > 100),
{
}

/// Whatever a drain leaves, the registers, the instruction history and the traps are those of
/// the last report of each among its events.
pub proof fn law_drain_keeps_the_latest_report(
    events: Vec<Event>,
    obs: &mut Observed,
    stopped: bool,
    i: int,
)
    requires
        call_ensures(drain_events, (events, obs), stopped),
        0 <= i < events.len(),
    ensures
        events@[i] matches Event::Status { running, cycles, regs } ==> (forall|j: int|
            i < j < events@.len() ==> !(#[trigger] events@[j] is Status)) ==> final(obs).regs
            == Some(regs),
        events@[i] matches Event::InstructionHistory(h) ==> (forall|j: int|
            i < j < events@.len() ==> !(#[trigger] events@[j] is InstructionHistory))
            ==> final(obs).history@ == h@,
        events@[i] matches Event::SystrapHistory(t) ==> (forall|j: int|
            i < j < events@.len() ==> !(#[trigger] events@[j] is SystrapHistory))
            ==> final(obs).traps@ == t@,
{
    assert(final(obs)@ == after_all(old(obs)@, events@));
    law_latest_report_stays(old(obs)@, events@, i);
}

/// What no event reports stays as it was.
pub proof fn law_unreported_stays(seen: Seen, events: Seq<Event>)
    ensures
        (forall|j: int| 0 <= j < events.len() ==> !(#[trigger] events[j] is Memory)) ==> after_all(
            seen,
            events,
        ).ram == seen.ram,
        (forall|j: int| 0 <= j < events.len() ==> !(#[trigger] events[j] is Status)) ==> after_all(
            seen,
            events,
        ).regs == seen.regs,
        (forall|j: int| 0 <= j < events.len() ==> !(#[trigger] events[j] is InstructionHistory))
            ==> after_all(seen, events).history == seen.history,
        (forall|j: int| 0 <= j < events.len() ==> !(#[trigger] events[j] is SystrapHistory))
            ==> after_all(seen, events).traps == seen.traps,
    decreases events.len(),
{
    if events.len() > 0 {
        let rest = events.drop_last();
        law_unreported_stays(seen, rest);
        assert(events[events.len() - 1] == events.last());
        assert forall|j: int| 0 <= j < rest.len() implies rest[j] == events[j] by {}
    }
}

/// A byte of RAM is what the last memory report that covers it gives, as long as RAM does not
/// shrink below it; RAM is as long as the last memory report says.
pub proof fn law_ram_is_what_was_last_reported(seen: Seen, events: Seq<Event>, i: int, at: int)
    requires
        0 <= i < events.len(),
    ensures
        events[i] matches Event::Memory { addr, bytes, ram_len } ==> {
            &&& (forall|j: int|
                i < j < events.len() ==> !(#[trigger] events[j] is Memory)) ==> after_all(
                seen,
                events,
            ).ram.len() == ram_len
            &&& addr <= at < addr + bytes.len() && addr + bytes.len() <= ram_len && (forall|j: int|
                i < j < events.len() ==> (#[trigger] events[j] matches Event::Memory {
                    addr: later,
                    bytes: other,
                    ram_len: len,
                } ==> at < len && !(later <= at < later + other.len()))) ==> {
                &&& at < after_all(seen, events).ram.len()
                &&& after_all(seen, events).ram[at] == bytes@[at - addr]
            }
        },
    decreases events.len(),
{
    let rest = events.drop_last();
    if i < events.len() - 1 {
        law_ram_is_what_was_last_reported(seen, rest, i, at);
        assert(events[events.len() - 1] == events.last());
        assert forall|j: int| i < j < rest.len() implies rest[j] == events[j] by {}
    }
}

/// Whatever a drain leaves in the mirror of RAM is what the last memory report that covers it
/// gives.
pub proof fn law_drain_mirrors_ram(
    events: Vec<Event>,
    obs: &mut Observed,
    stopped: bool,
    i: int,
    at: int,
)
    requires
        call_ensures(drain_events, (events, obs), stopped),
        0 <= i < events.len(),
        events@[i] is Memory,
        events@[i]->addr <= at < events@[i]->addr + events@[i]->bytes.len(),
        events@[i]->addr + events@[i]->bytes.len() <= events@[i]->ram_len,
        forall|j: int|
            i < j < events@.len() ==> (#[trigger] events@[j] matches Event::Memory {
                addr,
                bytes,
                ram_len,
            } ==> at < ram_len && !(addr <= at < addr + bytes.len())),
    ensures
        at < final(obs).ram.len(),
        final(obs).ram@[at] == events@[i]->bytes@[at - events@[i]->addr],
{
    assert(final(obs)@ == after_all(old(obs)@, events@));
    law_ram_is_what_was_last_reported(old(obs)@, events@, i, at);
}

} // verus!
