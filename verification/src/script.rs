//! The key script: scripted keypresses as key movements in order of time.

use vstd::prelude::*;

verus! {

/// A key that goes down at one tick and up at another.
#[derive(Clone, Copy, Debug, PartialEq, Eq, Structural)]
pub struct KeyPress {
    /// When it goes down
    pub down: u64,
    /// When it goes up
    pub up: u64,
    /// Universal scancode
    pub code: u8,
}

/// A key that moves at a tick.
#[derive(Clone, Copy, Debug, PartialEq, Eq, Structural)]
pub struct KeyMove {
    pub tick: u64,
    /// Down, or else up
    pub pressed: bool,
    /// Universal scancode
    pub code: u8,
}

/// The movements of `presses`, each press's two next to each other, in the order given.
pub open spec fn moves_of(presses: Seq<KeyPress>) -> Seq<KeyMove> {
    Seq::new(
        2 * presses.len(),
        |i: int|
            {
                let p = presses[i / 2];
                if i % 2 == 0 {
                    KeyMove { tick: p.down, pressed: true, code: p.code }
                } else {
                    KeyMove { tick: p.up, pressed: false, code: p.code }
                }
            },
    )
}

/// Whether the movement at `a` is to come before the one at `b`: it is earlier, or given
/// first for the same tick.
pub open spec fn precedes(moves: Seq<KeyMove>, a: int, b: int) -> bool {
    moves[a].tick < moves[b].tick || (moves[a].tick == moves[b].tick && a < b)
}

/// Whether `sorted` holds the movements of `moves` in order, `places[i]` being where its
/// `i`-th one stands in `moves`.
pub open spec fn in_order(moves: Seq<KeyMove>, sorted: Seq<KeyMove>, places: Seq<int>) -> bool {
    &&& places.len() == moves.len()
    &&& sorted.len() == moves.len()
    &&& forall|i: int|
        0 <= i < places.len() ==> 0 <= #[trigger] places[i] < moves.len() && sorted[i]
            == moves[places[i]]
    &&& forall|k: int| 0 <= k < moves.len() ==> #[trigger] places.contains(k)
    &&& forall|i: int, j: int|
        0 <= i < j < places.len() ==> precedes(moves, #[trigger] places[i], #[trigger] places[j])
}

/// Whether `sorted` is `moves` sorted by tick, with movements of one tick left in their order.
pub open spec fn sorts(moves: Seq<KeyMove>, sorted: Seq<KeyMove>) -> bool {
    exists|places: Seq<int>| in_order(moves, sorted, places)
}

/// Whether no movement of `moves` comes before an earlier one.
pub open spec fn by_time(moves: Seq<KeyMove>) -> bool {
    forall|i: int, j: int| 0 <= i < j < moves.len() ==> moves[i].tick <= moves[j].tick
}

/// How many movements at the start of `moves` are due at `now`.
pub open spec fn due_count(moves: Seq<KeyMove>, now: u64) -> nat
    decreases moves.len(),
{
    if moves.len() == 0 || moves[0].tick > now {
        0
    } else {
        1 + due_count(moves.skip(1), now)
    }
}

/// Sorts `moves` by tick, leaving movements of one tick in their order.
fn sort_moves(moves: &Vec<KeyMove>) -> (sorted: Vec<KeyMove>)
    ensures
        sorts(moves@, sorted@),
        by_time(sorted@),
{
    let mut sorted: Vec<KeyMove> = Vec::new();
    let ghost mut places: Seq<int> = Seq::empty();
    for i in 0..moves.len()
        invariant
            in_order(moves@.take(i as int), sorted@, places),
    {
        let x = moves[i];
        let ghost before = moves@.take(i as int);
        let ghost after = moves@.take(i + 1);
        let ghost was = sorted@;
        let ghost old_places = places;
        let mut at: usize = sorted.len();
        while at > 0 && sorted[at - 1].tick > x.tick
            invariant
                at <= sorted.len(),
                sorted@ == was,
                forall|j: int| at <= j < was.len() ==> was[j].tick > x.tick,
            decreases at,
        {
            at = at - 1;
        }
        sorted.insert(at, x);
        proof {
            let n = i as int;
            let k = at as int;
            places = old_places.insert(k, n);
            assert(after[n] == x);
            assert forall|m: int| 0 <= m < n implies after[m] == before[m] by {}
            assert forall|m: int| 0 <= m < was.len() implies was[m] == before[old_places[m]] by {}
            assert forall|m: int| 0 <= m < k implies was[m].tick <= x.tick by {
                if m < k - 1 {
                    assert(precedes(before, old_places[m], old_places[k - 1]));
                }
            }
            assert forall|m: int| 0 <= m < places.len() implies 0 <= #[trigger] places[m]
                < after.len() && sorted@[m] == after[places[m]] by {
                if m < k {
                    assert(places[m] == old_places[m]);
                } else if m > k {
                    assert(places[m] == old_places[m - 1]);
                }
            }
            assert forall|m: int| 0 <= m < after.len() implies #[trigger] places.contains(m) by {
                if m == n {
                    assert(places[k] == m);
                } else {
                    assert(old_places.contains(m));
                    let q = choose|q: int| 0 <= q < old_places.len() && old_places[q] == m;
                    if q < k {
                        assert(places[q] == m);
                    } else {
                        assert(places[q + 1] == m);
                    }
                }
            }
            assert forall|a: int, b: int| 0 <= a < b < places.len() implies precedes(
                after,
                #[trigger] places[a],
                #[trigger] places[b],
            ) by {
                let oa = if a < k { a } else { a - 1 };
                let ob = if b < k { b } else { b - 1 };
                if a != k {
                    assert(places[a] == old_places[oa]);
                }
                if b != k {
                    assert(places[b] == old_places[ob]);
                }
                if a != k && b != k {
                    assert(precedes(before, old_places[oa], old_places[ob]));
                }
            }
        }
    }
    assert(moves@.take(moves.len() as int) =~= moves@);
    proof {
        assert forall|i: int, j: int| 0 <= i < j < sorted@.len() implies sorted@[i].tick
            <= sorted@[j].tick by {
            assert(precedes(moves@, places[i], places[j]));
        }
    }
    sorted
}

/// The movements that are still to be made, in order of time.
pub struct KeyScript {
    moves: Vec<KeyMove>,
    next: usize,
}

impl KeyScript {
    #[verifier::type_invariant]
    spec fn valid(self) -> bool {
        &&& self.next <= self.moves.len()
        &&& by_time(self.moves@)
    }

    /// What is still to be made.
    pub closed spec fn pending(self) -> Seq<KeyMove> {
        self.moves@.skip(self.next as int)
    }

    /// The script of `presses`: their movements, sorted by tick, those of one tick in the
    /// order given.
    pub fn new(presses: &Vec<KeyPress>) -> (script: KeyScript)
        ensures
            sorts(moves_of(presses@), script.pending()),
    {
        let mut moves: Vec<KeyMove> = Vec::new();
        for i in 0..presses.len()
            invariant
                moves@ == moves_of(presses@.take(i as int)),
        {
            let p = presses[i];
            moves.push(KeyMove { tick: p.down, pressed: true, code: p.code });
            moves.push(KeyMove { tick: p.up, pressed: false, code: p.code });
            assert(moves@ =~= moves_of(presses@.take(i + 1)));
        }
        assert(presses@.take(presses.len() as int) =~= presses@);
        let sorted = sort_moves(&moves);
        let script = KeyScript { moves: sorted, next: 0 };
        assert(script.pending() =~= sorted@);
        script
    }

    /// Takes the next movement, if it is due at `now`.
    pub fn next_due(&mut self, now: u64) -> (due: Option<KeyMove>)
        ensures
            due_count(old(self).pending(), now) == 0 ==> due is None && final(self).pending()
                == old(self).pending(),
            due_count(old(self).pending(), now) > 0 ==> due == Some(old(self).pending()[0])
                && final(self).pending() == old(self).pending().skip(1),
    {
        proof {
            use_type_invariant(&*self);
        }
        let next: usize = self.next;
        if next < self.moves.len() && self.moves[next].tick <= now {
            let due = self.moves[next];
            self.next = next + 1;
            assert(self.moves@.skip(next + 1) =~= self.moves@.skip(next as int).skip(1));
            Some(due)
        } else {
            None
        }
    }

    /// Takes every movement that is due at `now`.
    pub fn all_due(&mut self, now: u64) -> (due: Vec<KeyMove>)
        ensures
            due@ == old(self).pending().take(due_count(old(self).pending(), now) as int),
            final(self).pending() == old(self).pending().skip(
                due_count(old(self).pending(), now) as int,
            ),
    {
        let mut due: Vec<KeyMove> = Vec::new();
        let ghost all = self.pending();
        let ghost n = due_count(all, now);
        proof {
            lemma_due_count_bound(all, now);
            assert(all.skip(0) =~= all);
        }
        loop
            invariant
                n == due_count(all, now),
                n <= all.len(),
                due.len() <= n,
                due@ == all.take(due.len() as int),
                self.pending() == all.skip(due.len() as int),
                due.len() + due_count(self.pending(), now) == n,
            ensures
                due.len() == n,
                due@ == all.take(n as int),
                self.pending() == all.skip(n as int),
            decreases n - due.len(),
        {
            match self.next_due(now) {
                Some(m) => {
                    assert(all.skip(due.len() as int).skip(1) =~= all.skip(due.len() + 1));
                    due.push(m);
                    assert(due@ =~= all.take(due.len() as int));
                },
                None => {
                    break;
                },
            }
        }
        due
    }
}

proof fn lemma_due_count_bound(moves: Seq<KeyMove>, now: u64)
    ensures
        due_count(moves, now) <= moves.len(),
    decreases moves.len(),
{
    if moves.len() > 0 {
        lemma_due_count_bound(moves.skip(1), now);
    }
}

/// Sorted movements go by time.
pub proof fn law_sorted_is_by_time(moves: Seq<KeyMove>, sorted: Seq<KeyMove>)
    requires
        sorts(moves, sorted),
    ensures
        by_time(sorted),
        forall|i: int, j: int| 0 <= i < j < sorted.len() ==> sorted[i].tick <= sorted[j].tick,
{
    let places = choose|places: Seq<int>| in_order(moves, sorted, places);
    assert forall|i: int, j: int| 0 <= i < j < sorted.len() implies sorted[i].tick
        <= sorted[j].tick by {
        assert(precedes(moves, places[i], places[j]));
    }
}

/// There is one way to sort the same movements, so the same key presses make the same script.
pub proof fn law_order_is_unique(moves: Seq<KeyMove>, a: Seq<KeyMove>, b: Seq<KeyMove>)
    requires
        sorts(moves, a),
        sorts(moves, b),
    ensures
        a == b,
{
    let p = choose|places: Seq<int>| in_order(moves, a, places);
    let q = choose|places: Seq<int>| in_order(moves, b, places);
    assert forall|i: int| 0 <= i < moves.len() implies a[i] == b[i] by {
        lemma_same_place(moves, a, p, b, q, i);
        assert(a[i] == moves[p[i]]);
        assert(b[i] == moves[q[i]]);
    }
    assert(a =~= b);
}

proof fn lemma_same_place(
    moves: Seq<KeyMove>,
    a: Seq<KeyMove>,
    p: Seq<int>,
    b: Seq<KeyMove>,
    q: Seq<int>,
    i: int,
)
    requires
        in_order(moves, a, p),
        in_order(moves, b, q),
        0 <= i < moves.len(),
    ensures
        p[i] == q[i],
    decreases i,
{
    assert forall|j: int| 0 <= j < i implies p[j] == q[j] by {
        lemma_same_place(moves, a, p, b, q, j);
    }
    assert(q.contains(p[i]));
    let m = choose|m: int| 0 <= m < q.len() && q[m] == p[i];
    assert(p.contains(q[i]));
    let n = choose|n: int| 0 <= n < p.len() && p[n] == q[i];
    if m < i {
        assert(precedes(moves, p[m], p[i]));
    } else if n < i {
        assert(precedes(moves, q[n], q[i]));
    } else if m > i && n > i {
        assert(precedes(moves, q[i], q[m]));
        assert(precedes(moves, p[i], p[n]));
    }
}

/// A key that goes up no earlier than it goes down does so in the script too, also where
/// both are at the same tick.
pub proof fn law_press_comes_before_release(
    presses: Seq<KeyPress>,
    sorted: Seq<KeyMove>,
    places: Seq<int>,
    k: int,
)
    requires
        in_order(moves_of(presses), sorted, places),
        0 <= k < presses.len(),
        presses[k].down <= presses[k].up,
    ensures
        exists|i: int, j: int|
            0 <= i < j < sorted.len() && #[trigger] places[i] == 2 * k && #[trigger] places[j] == 2
                * k + 1 && sorted[i] == (KeyMove {
                tick: presses[k].down,
                pressed: true,
                code: presses[k].code,
            }) && sorted[j] == (KeyMove {
                tick: presses[k].up,
                pressed: false,
                code: presses[k].code,
            }),
{
    let moves = moves_of(presses);
    assert(places.contains(2 * k));
    assert(places.contains(2 * k + 1));
    let i = choose|i: int| 0 <= i < places.len() && places[i] == 2 * k;
    let j = choose|j: int| 0 <= j < places.len() && places[j] == 2 * k + 1;
    assert((2 * k) / 2 == k && (2 * k) % 2 == 0);
    assert((2 * k + 1) / 2 == k && (2 * k + 1) % 2 == 1);
    if j < i {
        assert(precedes(moves, places[j], places[i]));
    }
    assert(places[i] == 2 * k && places[j] == 2 * k + 1);
}

/// The movements that are due at `now` are those of a tick up to `now`, and no others.
pub proof fn law_due_is_what_time_has_reached(moves: Seq<KeyMove>, now: u64)
    requires
        by_time(moves),
    ensures
        due_count(moves, now) <= moves.len(),
        forall|i: int| 0 <= i < due_count(moves, now) ==> (#[trigger] moves[i]).tick <= now,
        forall|i: int|
            due_count(moves, now) <= i < moves.len() ==> (#[trigger] moves[i]).tick > now,
    decreases moves.len(),
{
    if moves.len() > 0 && moves[0].tick <= now {
        let rest = moves.skip(1);
        law_due_is_what_time_has_reached(rest, now);
        assert forall|i: int| 0 <= i < moves.len() implies (i < due_count(moves, now) ==> (
        #[trigger] moves[i]).tick <= now) && (i >= due_count(moves, now) ==> moves[i].tick
            > now) by {
            if i > 0 {
                assert(rest[i - 1] == moves[i]);
            }
        }
    }
}

/// Looking for due movements at one time and then at a later one takes, together, what
/// looking at the later time alone takes: no movement is lost and none is made twice.
pub proof fn law_due_in_steps(moves: Seq<KeyMove>, now: u64, later: u64)
    requires
        now <= later,
    ensures
        due_count(moves, now) <= moves.len(),
        due_count(moves, now) + due_count(moves.skip(due_count(moves, now) as int), later)
            == due_count(moves, later),
    decreases moves.len(),
{
    assert(moves.skip(0) =~= moves);
    if moves.len() > 0 && moves[0].tick <= now {
        let rest = moves.skip(1);
        law_due_in_steps(rest, now, later);
        assert(rest.skip(due_count(rest, now) as int) =~= moves.skip(
            due_count(moves, now) as int,
        ));
    }
}

/// Every key press makes two movements behind those of the presses before it: it goes down,
/// and then it goes up.
pub proof fn law_press_makes_two_moves(presses: Seq<KeyPress>, p: KeyPress)
    ensures
        moves_of(seq![]) == Seq::<KeyMove>::empty(),
        moves_of(presses.push(p)) == moves_of(presses) + seq![
            KeyMove { tick: p.down, pressed: true, code: p.code },
            KeyMove { tick: p.up, pressed: false, code: p.code },
        ],
{
    let moves = moves_of(presses.push(p));
    let n = presses.len() as int;
    assert(moves_of(seq![]) =~= Seq::<KeyMove>::empty());
    assert forall|i: int| 0 <= i < 2 * n implies moves[i] == moves_of(presses)[i] by {
        assert(0 <= i / 2 < n);
    }
    assert(moves =~= moves_of(presses) + seq![
        KeyMove { tick: p.down, pressed: true, code: p.code },
        KeyMove { tick: p.up, pressed: false, code: p.code },
    ]);
}

/// Which movements are made at `tick`.
pub open spec fn made_at(tick: u64) -> spec_fn(KeyMove) -> bool {
    |m: KeyMove| m.tick == tick
}

/// Without the movement that was given last, the others are in order still.
proof fn lemma_in_order_without_the_last(
    moves: Seq<KeyMove>,
    sorted: Seq<KeyMove>,
    places: Seq<int>,
    k: int,
)
    requires
        in_order(moves, sorted, places),
        0 <= k < places.len(),
        places[k] == moves.len() - 1,
    ensures
        in_order(moves.drop_last(), sorted.remove(k), places.remove(k)),
        forall|j: int| k < j < sorted.len() ==> (#[trigger] sorted[j]).tick > moves.last().tick,
{
    let n = moves.len() - 1;
    let fewer = moves.drop_last();
    let rest = places.remove(k);
    assert forall|j: int| k < j < sorted.len() implies (#[trigger] sorted[j]).tick
        > moves.last().tick by {
        assert(precedes(moves, places[k], places[j]));
        assert(sorted[j] == moves[places[j]]);
    }
    assert forall|i: int| 0 <= i < rest.len() implies 0 <= #[trigger] rest[i] < fewer.len()
        && sorted.remove(k)[i] == fewer[rest[i]] by {
        let was = if i < k { i } else { i + 1 };
        assert(rest[i] == places[was]);
        if was < k {
            assert(precedes(moves, places[was], places[k]));
        } else {
            assert(precedes(moves, places[k], places[was]));
        }
        assert(sorted[was] == moves[places[was]]);
    }
    assert forall|m: int| 0 <= m < fewer.len() implies #[trigger] rest.contains(m) by {
        assert(places.contains(m));
        let q = choose|q: int| 0 <= q < places.len() && places[q] == m;
        if q < k {
            assert(rest[q] == m);
        } else {
            assert(rest[q - 1] == m);
        }
    }
    assert forall|i: int, j: int| 0 <= i < j < rest.len() implies precedes(
        fewer,
        #[trigger] rest[i],
        #[trigger] rest[j],
    ) by {
        let oi = if i < k { i } else { i + 1 };
        let oj = if j < k { j } else { j + 1 };
        assert(rest[i] == places[oi] && rest[j] == places[oj]);
        assert(precedes(moves, places[oi], places[oj]));
    }
}

proof fn lemma_none_made_at(moves: Seq<KeyMove>, tick: u64)
    requires
        forall|i: int| 0 <= i < moves.len() ==> (#[trigger] moves[i]).tick != tick,
    ensures
        moves.filter(made_at(tick)) == Seq::<KeyMove>::empty(),
    decreases moves.len(),
{
    reveal(Seq::filter);
    if moves.len() > 0 {
        assert(moves[moves.len() - 1].tick != tick);
        assert forall|i: int| 0 <= i < moves.len() - 1 implies (
        #[trigger] moves.drop_last()[i]).tick != tick by {
            assert(moves.drop_last()[i] == moves[i]);
        }
        lemma_none_made_at(moves.drop_last(), tick);
    } else {
        assert(moves =~= Seq::<KeyMove>::empty());
    }
}

/// At every tick the script makes the movements that were given for that tick, all of them, in
/// the order given, and no others.
pub proof fn law_each_tick_has_its_moves(moves: Seq<KeyMove>, sorted: Seq<KeyMove>, tick: u64)
    requires
        sorts(moves, sorted),
    ensures
        sorted.len() == moves.len(),
        sorted.filter(made_at(tick)) == moves.filter(made_at(tick)),
    decreases moves.len(),
{
    reveal(Seq::filter);
    let places = choose|places: Seq<int>| in_order(moves, sorted, places);
    if moves.len() > 0 {
        let x = moves.last();
        assert(places.contains(moves.len() - 1));
        let k = choose|k: int| 0 <= k < places.len() && places[k] == moves.len() - 1;
        lemma_in_order_without_the_last(moves, sorted, places, k);
        let fewer = sorted.remove(k);
        law_each_tick_has_its_moves(moves.drop_last(), fewer, tick);
        let a = sorted.take(k);
        let b = sorted.skip(k + 1);
        let at = made_at(tick);
        assert(sorted[k] == moves[places[k]]);
        assert(sorted =~= a.push(x) + b);
        assert(fewer =~= a + b);
        Seq::filter_distributes_over_add(a.push(x), b, at);
        Seq::filter_distributes_over_add(a, b, at);
        assert(a.push(x).drop_last() =~= a);
        if tick == x.tick {
            assert forall|i: int| 0 <= i < b.len() implies (#[trigger] b[i]).tick != tick by {
                assert(b[i] == sorted[k + 1 + i]);
            }
            lemma_none_made_at(b, tick);
            assert(sorted.filter(at) =~= fewer.filter(at).push(x));
        }
    } else {
        assert(sorted =~= moves);
    }
}

/// Whatever script is made of key presses holds two movements for each of them, ordered by time,
/// and at every tick those of the presses for it, in the order given.
pub proof fn law_script_holds_the_presses(presses: &Vec<KeyPress>, script: KeyScript, tick: u64)
    requires
        call_ensures(KeyScript::new, (presses,), script),
    ensures
        script.pending().len() == 2 * presses.len(),
        forall|i: int, j: int|
            0 <= i < j < script.pending().len() ==> script.pending()[i].tick
                <= script.pending()[j].tick,
        script.pending().filter(made_at(tick)) == moves_of(presses@).filter(made_at(tick)),
{
    assert(sorts(moves_of(presses@), script.pending()));
    law_sorted_is_by_time(moves_of(presses@), script.pending());
    law_each_tick_has_its_moves(moves_of(presses@), script.pending(), tick);
}

/// Whatever a script gives at `now`, its movements going by time, is what comes up to `now`;
/// what is left comes later. Together they are what there was, in order.
pub proof fn law_script_gives_what_is_due(script: &mut KeyScript, now: u64, due: Vec<KeyMove>)
    requires
        call_ensures(KeyScript::all_due, (script, now), due),
        by_time(old(script).pending()),
    ensures
        due@ + final(script).pending() == old(script).pending(),
        forall|i: int| 0 <= i < due@.len() ==> (#[trigger] due@[i]).tick <= now,
        forall|i: int|
            0 <= i < final(script).pending().len() ==> (#[trigger] final(script).pending()[i]).tick
                > now,
        by_time(final(script).pending()),
{
    let all = old(script).pending();
    let n = due_count(all, now) as int;
    assert(due@ == all.take(n));
    assert(final(script).pending() == all.skip(n));
    law_due_is_what_time_has_reached(all, now);
    assert(all.take(n) + all.skip(n) =~= all);
    assert forall|i: int| 0 <= i < due@.len() implies (#[trigger] due@[i]).tick <= now by {
        assert(due@[i] == all[i]);
    }
    assert forall|i: int| 0 <= i < all.skip(n).len() implies (#[trigger] all.skip(n)[i]).tick
        > now by {
        assert(all.skip(n)[i] == all[n + i]);
    }
}

/// Whatever single movement a script gives at `now` is the first that is left, if its tick has
/// come, and that one alone is taken away.
pub proof fn law_script_gives_the_next(script: &mut KeyScript, now: u64, due: Option<KeyMove>)
    requires
        call_ensures(KeyScript::next_due, (script, now), due),
    ensures
        ({
            let before = old(script).pending();
            let after = final(script).pending();
            if before.len() > 0 && before[0].tick <= now {
                due is Some && seq![due->0] + after == before
            } else {
                due is None && after == before
            }
        }),
{
    let before = old(script).pending();
    assert(due_count(before, now) == 0 || due_count(before, now) > 0);
    if before.len() > 0 && before[0].tick <= now {
        assert(seq![before[0]] + before.skip(1) =~= before);
    }
}

} // verus!
