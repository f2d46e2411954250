//! States of the two lots, their enumeration, and the daily outcomes that lead
//! from one state to another.

use vstd::arithmetic::div_mod::lemma_fundamental_div_mod_converse;
use vstd::prelude::*;

verus! {

/// Cars standing on each lot at the start of a day.
#[derive(Debug, Clone, Copy, PartialEq, Eq, Hash, Structural)]
pub struct State {
    /// Cars at the first location.
    pub n1: u8,
    /// Cars at the second location.
    pub n2: u8,
}

/// How many states there are when the lots hold at most `max_n1` and `max_n2`
/// cars.
pub open spec fn state_count(max_n1: u8, max_n2: u8) -> nat {
    ((max_n1 + 1) * (max_n2 + 1)) as nat
}

/// The state at place `k` of the row-major enumeration: the first lot's count
/// is the row, the second lot's count runs fastest.
pub open spec fn state_at(max_n2: u8, k: int) -> State {
    State { n1: (k / (max_n2 + 1)) as u8, n2: (k % (max_n2 + 1)) as u8 }
}

/// Every state within the two capacities, in row-major order.
pub open spec fn all_states(max_n1: u8, max_n2: u8) -> Seq<State> {
    Seq::new(state_count(max_n1, max_n2), |k: int| state_at(max_n2, k))
}

/// The place of `(n1, n2)` in the row-major enumeration.
pub open spec fn state_index(max_n2: u8, n1: int, n2: int) -> int {
    n1 * (max_n2 + 1) + n2
}

/// Row-major places and states within the capacities correspond one to one:
/// the state at the place of `(n1, n2)` is `(n1, n2)`, and that place lies
/// before the end of the enumeration.
pub proof fn lemma_state_index(max_n1: u8, max_n2: u8, n1: u8, n2: u8)
    requires
        n1 <= max_n1,
        n2 <= max_n2,
    ensures
        0 <= state_index(max_n2, n1 as int, n2 as int) < state_count(max_n1, max_n2),
        state_at(max_n2, state_index(max_n2, n1 as int, n2 as int)) == (State { n1, n2 }),
        all_states(max_n1, max_n2)[state_index(max_n2, n1 as int, n2 as int)] == (State { n1, n2 }),
{
    let m = max_n2 as int + 1;
    let k = state_index(max_n2, n1 as int, n2 as int);
    assert(0 <= n1 * m) by (nonlinear_arith)
        requires
            0 <= n1,
            0 < m,
    ;
    assert(n1 * m + m <= (max_n1 + 1) * m) by (nonlinear_arith)
        requires
            n1 <= max_n1,
            0 < m,
    ;
    lemma_fundamental_div_mod_converse(k, m, n1 as int, n2 as int);
}

/// Every state of the enumeration lies within the capacities, and sits at the
/// place that its own counts give.
pub proof fn lemma_state_at(max_n1: u8, max_n2: u8, k: int)
    requires
        0 <= k < state_count(max_n1, max_n2),
    ensures
        state_at(max_n2, k).n1 <= max_n1,
        state_at(max_n2, k).n2 <= max_n2,
        state_index(max_n2, state_at(max_n2, k).n1 as int, state_at(max_n2, k).n2 as int) == k,
{
    let m = max_n2 as int + 1;
    let q = k / m;
    let r = k % m;
    vstd::arithmetic::div_mod::lemma_fundamental_div_mod(k, m);
    vstd::arithmetic::div_mod::lemma_mod_bound(k, m);
    assert(q <= max_n1) by (nonlinear_arith)
        requires
            k == m * q + r,
            0 <= r,
            k < (max_n1 + 1) * m,
            0 < m,
    ;
    assert(0 <= q) by (nonlinear_arith)
        requires
            k == m * q + r,
            r < m,
            0 <= k,
            0 < m,
    ;
    assert(m * q == q * m) by (nonlinear_arith);
}

/// Walks through every state within two capacities in row-major order.
pub struct StateIterator {
    n1: u16,
    n2: u8,
    max_n1: u8,
    max_n2: u8,
}

impl StateIterator {
    #[verifier::type_invariant]
    spec fn inv(self) -> bool {
        &&& self.n1 <= self.max_n1 + 1
        &&& self.n2 <= self.max_n2
        &&& self.n1 == self.max_n1 + 1 ==> self.n2 == 0
    }

    /// The capacity of the first lot.
    pub closed spec fn max_n1(self) -> u8 {
        self.max_n1
    }

    /// The capacity of the second lot.
    pub closed spec fn max_n2(self) -> u8 {
        self.max_n2
    }

    /// How many states have been handed out so far.
    pub closed spec fn position(self) -> nat {
        (self.n1 * (self.max_n2 + 1) + self.n2) as nat
    }

    /// The states still to come, in order.
    pub open spec fn remaining(self) -> Seq<State> {
        all_states(self.max_n1(), self.max_n2()).skip(self.position() as int)
    }

    /// An iterator placed before the first state `(0, 0)`.
    pub fn new(max_n1: u8, max_n2: u8) -> (it: StateIterator)
        ensures
            it.max_n1() == max_n1,
            it.max_n2() == max_n2,
            it.position() == 0,
            it.remaining() == all_states(max_n1, max_n2),
    {
        let it = StateIterator { n1: 0, n2: 0, max_n1, max_n2 };
        assert(it.remaining() =~= all_states(max_n1, max_n2));
        it
    }

    /// Hands out the next state and moves on, or reports the end.
    pub fn next(&mut self) -> (r: Option<State>)
        ensures
            final(self).max_n1() == old(self).max_n1(),
            final(self).max_n2() == old(self).max_n2(),
            old(self).position() <= state_count(old(self).max_n1(), old(self).max_n2()),
            r is None <==> old(self).position() == state_count(
                old(self).max_n1(),
                old(self).max_n2(),
            ),
            r is None ==> final(self).position() == old(self).position(),
            r is None ==> final(self).remaining() == old(self).remaining(),
            r is Some ==> {
                &&& final(self).position() == old(self).position() + 1
                &&& r->Some_0 == all_states(old(self).max_n1(), old(self).max_n2())[old(
                    self,
                ).position() as int]
                &&& r->Some_0 == old(self).remaining()[0]
                &&& final(self).remaining() == old(self).remaining().skip(1)
                &&& r->Some_0.n1 <= old(self).max_n1()
                &&& r->Some_0.n2 <= old(self).max_n2()
            },
    {
        proof {
            use_type_invariant(&*self);
        }
        let ghost m = self.max_n2 as int + 1;
        if self.n1 > self.max_n1 as u16 {
            assert(self.n1 * m == (self.max_n1 + 1) * m) by (nonlinear_arith)
                requires
                    self.n1 == self.max_n1 + 1,
            ;
            return None;
        }
        let state = State { n1: self.n1 as u8, n2: self.n2 };
        proof {
            lemma_state_index(self.max_n1, self.max_n2, state.n1, state.n2);
            let states = all_states(self.max_n1, self.max_n2);
            let at = self.position() as int;
            assert(states.skip(at).skip(1) =~= states.skip(at + 1));
        }
        if self.n2 < self.max_n2 {
            *self = StateIterator {
                n1: self.n1,
                n2: self.n2 + 1,
                max_n1: self.max_n1,
                max_n2: self.max_n2,
            };
        } else {
            assert((self.n1 + 1) * m == self.n1 * m + m) by (nonlinear_arith);
            *self = StateIterator {
                n1: self.n1 + 1,
                n2: 0,
                max_n1: self.max_n1,
                max_n2: self.max_n2,
            };
        }
        Some(state)
    }
}

/// Cars rented and returned at each location during one day.
#[derive(Debug, Clone, Copy, PartialEq, Eq, Structural)]
pub struct Outcome {
    /// Cars rented at the first location.
    pub x1: i16,
    /// Cars rented at the second location.
    pub x2: i16,
    /// Cars returned at the first location.
    pub y1: i16,
    /// Cars returned at the second location.
    pub y2: i16,
}

impl Outcome {
    /// Whether this outcome leads from `s1` to `s2` when `a` cars are moved
    /// overnight from the first lot to the second and `xt` cars are rented in
    /// all: no count is negative, neither lot rents more than it holds after
    /// the move, the rentals add up to `xt`, and on each lot the cars left
    /// after the move, less those rented, plus those returned, are the cars of
    /// `s2`.
    pub open spec fn reconciles(self, s1: State, s2: State, xt: int, a: int) -> bool {
        &&& self.x1 >= 0
        &&& self.x2 >= 0
        &&& self.y1 >= 0
        &&& self.y2 >= 0
        &&& self.x1 <= s1.n1 - a
        &&& self.x2 <= s1.n2 + a
        &&& self.x1 + self.x2 == xt
        &&& s1.n1 - a - self.x1 + self.y1 == s2.n1
        &&& s1.n2 + a - self.x2 + self.y2 == s2.n2
    }

    /// The one candidate with `x` cars rented at the first location: the other
    /// three counts follow from the total and from the two lots' balances.
    pub open spec fn split(s1: State, s2: State, xt: int, a: int, x: int) -> Outcome {
        Outcome {
            x1: x as i16,
            x2: (xt - x) as i16,
            y1: (s2.n1 - s1.n1 + x + a) as i16,
            y2: (s2.n2 - s1.n2 + (xt - x) - a) as i16,
        }
    }

    /// The candidates for `0 ..= xt` cars rented at the first location, in that
    /// order.
    pub open spec fn splits(s1: State, s2: State, xt: int, a: int) -> Seq<Outcome> {
        Seq::new((xt + 1) as nat, |x: int| Self::split(s1, s2, xt, a, x))
    }

    /// The test that keeps a candidate: it reconciles the two states.
    pub open spec fn keeps(s1: State, s2: State, xt: int, a: int) -> spec_fn(Outcome) -> bool {
        |o: Outcome| o.reconciles(s1, s2, xt, a)
    }

    /// All outcomes that lead from `s1` to `s2`, by increasing rentals at the
    /// first location.
    pub open spec fn solutions(s1: State, s2: State, xt: int, a: int) -> Seq<Outcome> {
        Self::splits(s1, s2, xt, a).filter(Self::keeps(s1, s2, xt, a))
    }

    /// An outcome with the given rentals and no returns yet.
    pub fn new(x1: i16, x2: i16) -> (out: Outcome)
        ensures
            out == (Outcome { x1, x2, y1: 0, y2: 0 }),
    {
        Outcome { x1, x2, y1: 0, y2: 0 }
    }

    /// Whether none of the four counts is negative.
    pub fn is_nonnegative(&self) -> (ok: bool)
        ensures
            ok == (self.x1 >= 0 && self.x2 >= 0 && self.y1 >= 0 && self.y2 >= 0),
    {
        self.x1 >= 0 && self.x2 >= 0 && self.y1 >= 0 && self.y2 >= 0
    }

    /// Whether each lot, after `a` cars went from the first to the second,
    /// holds at least the cars that this outcome rents out there.
    pub fn locations_have_enough_cars(&self, s1: &State, a: i16) -> (ok: bool)
        ensures
            ok == (self.x1 <= s1.n1 - a && self.x2 <= s1.n2 + a),
    {
        let loc1_enough_cars = self.x1 as i32 <= s1.n1 as i32 - a as i32;
        let loc2_enough_cars = self.x2 as i32 <= s1.n2 as i32 + a as i32;
        loc1_enough_cars && loc2_enough_cars
    }

    /// Finds every outcome that leads from `s1` to `s2` when `a` cars are
    /// moved and `xt` cars are rented in all.
    ///
    /// The list is empty where more cars would be moved than the source lot
    /// holds, where `xt` exceeds the cars of both lots together, and where no
    /// split leaves every count non-negative. Whether `s2` fits the lots'
    /// capacities is not looked at: that is for the caller to see to.
    pub fn solve(s1: &State, s2: &State, xt: u16, a: i16) -> (outcomes: Vec<Outcome>)
        ensures
            outcomes@ == Self::solutions(*s1, *s2, xt as int, a as int),
    {
        let mut outcomes: Vec<Outcome> = Vec::new();
        let ghost keep = Self::keeps(*s1, *s2, xt as int, a as int);
        let ghost all = Self::splits(*s1, *s2, xt as int, a as int);
        // Neither lot can give away more cars than it holds, and no more cars
        // can be rented than both lots hold together.
        if a as i32 > s1.n1 as i32 || -(a as i32) > s1.n2 as i32 || xt > s1.n1 as u16
            + s1.n2 as u16 {
            proof {
                assert forall|o: Outcome| !(#[trigger] keep(o)) by {}
                lemma_filter_none(all, keep);
            }
            return outcomes;
        }
        let mut x: u16 = 0;
        proof {
            reveal(Seq::filter);
            assert(all.take(0) =~= Seq::<Outcome>::empty());
        }
        while x <= xt
            invariant
                0 <= x <= xt + 1,
                xt <= s1.n1 + s1.n2,
                -s1.n2 <= a <= s1.n1,
                keep == Self::keeps(*s1, *s2, xt as int, a as int),
                all == Self::splits(*s1, *s2, xt as int, a as int),
                outcomes@ == all.take(x as int).filter(keep),
            decreases xt + 1 - x,
        {
            let mut z = Outcome::new(x as i16, (xt - x) as i16);
            let enough = z.locations_have_enough_cars(s1, a);
            z.y1 = s2.n1 as i16 - s1.n1 as i16 + z.x1 + a;
            z.y2 = s2.n2 as i16 - s1.n2 as i16 + z.x2 - a;
            proof {
                reveal(Seq::filter);
                let next = all.take(x + 1);
                assert(next.drop_last() =~= all.take(x as int));
                assert(next.last() == z);
                assert(keep(z) == (enough && z.y1 >= 0 && z.y2 >= 0));
            }
            if enough && z.is_nonnegative() {
                outcomes.push(z);
            }
            x = x + 1;
        }
        assert(all.take(x as int) =~= all);
        outcomes
    }
}

/// A filter that no item passes keeps nothing.
pub proof fn lemma_filter_none<A>(s: Seq<A>, keep: spec_fn(A) -> bool)
    requires
        forall|i: int| 0 <= i < s.len() ==> !keep(#[trigger] s[i]),
    ensures
        s.filter(keep) == Seq::<A>::empty(),
    decreases s.len(),
{
    reveal(Seq::filter);
    if s.len() > 0 {
        lemma_filter_none(s.drop_last(), keep);
    }
}

} // verus!

verus! {

/// What is kept of the first `k` candidates holds only candidates from among
/// them that reconcile the two states, by increasing rentals at the first
/// location.
proof fn lemma_kept_prefix(s1: State, s2: State, xt: int, a: int, k: int)
    requires
        0 <= k <= xt + 1,
    ensures
        ({
            let kept = Outcome::splits(s1, s2, xt, a).take(k).filter(
                Outcome::keeps(s1, s2, xt, a),
            );
            &&& kept.len() <= k
            &&& forall|i: int|
                0 <= i < kept.len() ==> {
                    &&& (#[trigger] kept[i]).reconciles(s1, s2, xt, a)
                    &&& kept[i].x1 < k
                }
            &&& forall|i: int, j: int|
                0 <= i < j < kept.len() ==> (#[trigger] kept[i]).x1 < (#[trigger] kept[j]).x1
            &&& forall|o: Outcome|
                o.reconciles(s1, s2, xt, a) && o.x1 < k ==> #[trigger] kept.contains(o)
        }),
    decreases k,
{
    reveal(Seq::filter);
    let all = Outcome::splits(s1, s2, xt, a);
    let keep = Outcome::keeps(s1, s2, xt, a);
    let kept = all.take(k).filter(keep);
    if k > 0 {
        lemma_kept_prefix(s1, s2, xt, a, k - 1);
        let before = all.take(k - 1).filter(keep);
        let last = all[k - 1];
        assert(all.take(k).drop_last() =~= all.take(k - 1));
        assert(all.take(k).last() == last);
        assert forall|o: Outcome| o.reconciles(s1, s2, xt, a) && o.x1 < k implies #[trigger]
            kept.contains(o) by {
            if o.x1 < k - 1 {
                assert(before.contains(o));
                let i = choose|i: int| 0 <= i < before.len() && before[i] == o;
                assert(kept[i] == o);
            } else {
                assert(o == last);
                assert(kept[kept.len() - 1] == o);
            }
        }
    }
}

/// Every listed outcome reconciles the two states.
pub proof fn lemma_solutions_reconcile(s1: State, s2: State, xt: int, a: int, i: int)
    requires
        0 <= xt,
        0 <= i < Outcome::solutions(s1, s2, xt, a).len(),
    ensures
        Outcome::solutions(s1, s2, xt, a)[i].reconciles(s1, s2, xt, a),
{
    let all = Outcome::splits(s1, s2, xt, a);
    assert(all.take(xt + 1) =~= all);
    lemma_kept_prefix(s1, s2, xt, a, xt + 1);
}

/// Every outcome that reconciles the two states is listed.
pub proof fn lemma_solutions_complete(s1: State, s2: State, xt: int, a: int, o: Outcome)
    requires
        o.reconciles(s1, s2, xt, a),
    ensures
        Outcome::solutions(s1, s2, xt, a).contains(o),
{
    let all = Outcome::splits(s1, s2, xt, a);
    assert(all.take(xt + 1) =~= all);
    lemma_kept_prefix(s1, s2, xt, a, xt + 1);
}

/// The listed outcomes come by strictly increasing rentals at the first
/// location, so none is listed twice.
pub proof fn lemma_solutions_ordered(s1: State, s2: State, xt: int, a: int, i: int, j: int)
    requires
        0 <= xt,
        0 <= i < j < Outcome::solutions(s1, s2, xt, a).len(),
    ensures
        Outcome::solutions(s1, s2, xt, a)[i].x1 < Outcome::solutions(s1, s2, xt, a)[j].x1,
{
    let all = Outcome::splits(s1, s2, xt, a);
    assert(all.take(xt + 1) =~= all);
    lemma_kept_prefix(s1, s2, xt, a, xt + 1);
}

/// Nothing is listed where more cars would be moved than the source lot
/// holds, or more rented than both lots hold together.
pub proof fn lemma_solutions_unreachable(s1: State, s2: State, xt: int, a: int)
    requires
        a > s1.n1 || -a > s1.n2 || xt > s1.n1 + s1.n2 || xt < 0,
    ensures
        Outcome::solutions(s1, s2, xt, a) == Seq::<Outcome>::empty(),
{
    let keep = Outcome::keeps(s1, s2, xt, a);
    assert forall|o: Outcome| !(#[trigger] keep(o)) by {}
    lemma_filter_none(Outcome::splits(s1, s2, xt, a), keep);
}

/// There are never more outcomes than ways to split the rentals.
pub proof fn lemma_solutions_len(s1: State, s2: State, xt: int, a: int)
    requires
        0 <= xt,
    ensures
        Outcome::solutions(s1, s2, xt, a).len() <= xt + 1,
{
    let all = Outcome::splits(s1, s2, xt, a);
    assert(all.take(xt + 1) =~= all);
    lemma_kept_prefix(s1, s2, xt, a, xt + 1);
}

} // verus!
