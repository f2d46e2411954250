//! Exact, integer side of a two-location car rental model: the state space,
//! the outcomes that reconcile one day's rentals and returns with a change of
//! inventory, the symbolic chance of each outcome, and the tables of values
//! and actions.
//!
//! Nothing here computes with real numbers. A chance is named, not
//! evaluated, and a value is carried as a bit pattern; whoever uses the
//! library puts in the Poisson masses and does the sums.
//!
//! - [`solver`]: states, their enumeration, and the outcomes between them.
//! - [`mass`]: symbolic chances and the tables of them.
//! - [`cars`]: the agency, the reward, and the terms of a value.
//! - [`policy`]: the tables of values and of actions.
//! - [`value`]: what the terms of a value are worth.
//! - [`total`]: the chances of all terms add up to certainty.
//! - [`sums`]: finite sums.

use crate::cars::{min_of, RentalAgency};
use crate::solver::{all_states, lemma_state_at, lemma_state_index, state_count, State, StateIterator};
use vstd::prelude::*;

pub mod cars;
pub mod mass;
pub mod policy;
pub mod solver;
pub mod sums;
pub mod total;
pub mod value;

verus! {

/// The least number of cars that can be moved from the first lot to the
/// second when the day starts in `s`; it is negative where cars can be moved
/// the other way.
pub open spec fn least_move(agency: RentalAgency, s: State) -> int {
    -min_of(min_of(agency.max_move as int, s.n2 as int), agency.max1 - s.n1)
}

/// The greatest number of cars that can be moved from the first lot to the
/// second when the day starts in `s`.
pub open spec fn greatest_move(agency: RentalAgency, s: State) -> int {
    min_of(min_of(agency.max_move as int, s.n1 as int), agency.max2 - s.n2)
}

/// The state `s` with each move that can be made in it, from the least to the
/// greatest.
pub open spec fn moves_in(agency: RentalAgency, s: State) -> Seq<(State, i8)> {
    Seq::new(
        (greatest_move(agency, s) - least_move(agency, s) + 1) as nat,
        |i: int| (s, (least_move(agency, s) + i) as i8),
    )
}

/// The moves of the first `k` states of the row-major enumeration, state by
/// state.
pub open spec fn sweep(agency: RentalAgency, k: nat) -> Seq<(State, i8)>
    decreases k,
{
    if k == 0 {
        Seq::empty()
    } else {
        sweep(agency, (k - 1) as nat) + moves_in(
            agency,
            all_states(agency.max1, agency.max2)[k - 1],
        )
    }
}

/// The evaluations of one learning sweep, in the order in which they are to
/// be made: every state in row-major order, and in each state every move that
/// can be made, from the least to the greatest.
///
/// Each evaluation takes the terms of [`RentalAgency::calc_value_for_action`]
/// for its state and move, and its result is kept with
/// [`policy::Policy::set_value`] before the next one is made.
pub fn learn(agency: &RentalAgency) -> (tasks: Vec<(State, i8)>)
    requires
        agency.wf(),
    ensures
        tasks@ == sweep(*agency, state_count(agency.max1, agency.max2)),
{
    let mut tasks: Vec<(State, i8)> = Vec::new();
    let ghost states = all_states(agency.max1, agency.max2);
    let ghost total = state_count(agency.max1, agency.max2);
    let mut walk = StateIterator::new(agency.max1, agency.max2);
    let mut next = walk.next();
    let ghost mut done: nat = 0;
    while next.is_some()
        invariant
            agency.wf(),
            states == all_states(agency.max1, agency.max2),
            total == state_count(agency.max1, agency.max2),
            walk.max_n1() == agency.max1,
            walk.max_n2() == agency.max2,
            walk.position() <= total,
            done <= total,
            next is Some ==> {
                &&& walk.position() == done + 1
                &&& next->Some_0 == states[done as int]
                &&& agency.holds(next->Some_0)
            },
            next is None ==> done == total,
            tasks@ == sweep(*agency, done),
        decreases total + 1 - walk.position() + (if next is Some {
            1nat
        } else {
            0nat
        }),
    {
        let s1 = next.unwrap();
        let (min_move, max_move) = agency.move_range(&s1);
        let ghost before = tasks@;
        let mut a: i16 = min_move as i16;
        while a <= max_move as i16
            invariant
                min_move == least_move(*agency, s1),
                max_move == greatest_move(*agency, s1),
                min_move <= a <= max_move + 1,
                tasks@ == before + moves_in(*agency, s1).take(a - min_move),
            decreases max_move + 1 - a,
        {
            tasks.push((s1, a as i8));
            proof {
                let moves = moves_in(*agency, s1);
                assert(moves.take(a - min_move + 1) =~= moves.take(a - min_move).push(
                    moves[a - min_move],
                ));
            }
            a = a + 1;
        }
        proof {
            let moves = moves_in(*agency, s1);
            assert(moves.take(a - min_move) =~= moves);
            done = done + 1;
        }
        next = walk.next();
    }
    tasks
}

/// The moves of the first `k` states are the moves of those states and of no
/// other: a state and a move are among them exactly if the state is one of
/// the first `k` and the move lies between that state's least and greatest.
pub proof fn lemma_sweep_contains(agency: RentalAgency, k: nat, s: State, a: i8)
    requires
        agency.wf(),
        k <= state_count(agency.max1, agency.max2),
    ensures
        sweep(agency, k).contains((s, a)) <==> {
            &&& exists|i: int| 0 <= i < k && all_states(agency.max1, agency.max2)[i] == s
            &&& least_move(agency, s) <= a <= greatest_move(agency, s)
        },
    decreases k,
{
    let states = all_states(agency.max1, agency.max2);
    let found = |n: nat| exists|i: int| 0 <= i < n && states[i] == s;
    if k == 0 {
        assert(!found(k));
    } else {
        lemma_sweep_contains(agency, (k - 1) as nat, s, a);
        let head = sweep(agency, (k - 1) as nat);
        let last = states[k - 1];
        let tail = moves_in(agency, last);
        let lo = least_move(agency, last);
        let hi = greatest_move(agency, last);
        lemma_state_at(agency.max1, agency.max2, k - 1);
        let whole = head + tail;
        if whole.contains((s, a)) {
            let i = choose|i: int| 0 <= i < whole.len() && whole[i] == (s, a);
            if i < head.len() {
                assert(head[i] == (s, a));
                assert(head.contains((s, a)));
                let j = choose|j: int| 0 <= j < k - 1 && states[j] == s;
                assert(0 <= j < k && states[j] == s);
            } else {
                assert(tail[i - head.len()] == (s, a));
                assert(0 <= k - 1 < k && states[k - 1] == s);
            }
            assert(found(k));
        }
        if found(k) && least_move(agency, s) <= a <= greatest_move(agency, s) {
            let i = choose|i: int| 0 <= i < k && states[i] == s;
            if i < k - 1 {
                assert(0 <= i < k - 1 && states[i] == s);
                assert(head.contains((s, a)));
                let j = choose|j: int| 0 <= j < head.len() && head[j] == (s, a);
                assert(whole[j] == (s, a));
            } else {
                assert(tail[a - lo] == (s, a));
                assert(whole[head.len() + (a - lo)] == (s, a));
            }
            assert(whole.contains((s, a)));
        }
    }
}

/// A sweep holds exactly the states within the capacities, each with exactly
/// the moves that can be made in it within the move bound.
pub proof fn lemma_learn_covers(agency: RentalAgency, s: State, a: i8)
    requires
        agency.wf(),
    ensures
        sweep(agency, state_count(agency.max1, agency.max2)).contains((s, a)) <==> {
            &&& agency.holds(s)
            &&& agency.feasible(s, a as int)
            &&& -agency.max_move <= a <= agency.max_move
        },
{
    let total = state_count(agency.max1, agency.max2);
    let states = all_states(agency.max1, agency.max2);
    lemma_sweep_contains(agency, total, s, a);
    if agency.holds(s) {
        lemma_state_index(agency.max1, agency.max2, s.n1, s.n2);
    }
    if exists|i: int| 0 <= i < total && states[i] == s {
        let i = choose|i: int| 0 <= i < total && states[i] == s;
        lemma_state_at(agency.max1, agency.max2, i);
    }
}

} // verus!
