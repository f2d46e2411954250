//! The chances of all that can happen in a day add up to certainty.
//!
//! The terms of a value are listed by next state, then by cars rented, then
//! by outcome. Taken lot by lot they are the rows of the lots' tables, each of
//! which adds up to the whole; so the chances of all terms together are the
//! whole of the four laws multiplied.

use crate::cars::{OutcomeProb, RentalAgency, RewardCase, Transition};
use crate::mass::{
    lemma_rent_row_whole, lemma_return_row_whole, rent_mass, rent_row, return_mass, return_row,
    row_weight, weight, JointMass, Mass,
};
use crate::policy::Policy;
use crate::solver::{all_states, lemma_state_at, Outcome, State};
use crate::value::case_weight;
use crate::sums::{
    lemma_sum_agrees, lemma_sum_of_zeros, lemma_sum_scales, lemma_sum_splits, lemma_sum_starts,
    lemma_sum_stops, lemma_sum_swaps, sum,
};
use vstd::arithmetic::div_mod::lemma_fundamental_div_mod_converse;
use vstd::prelude::*;

verus! {

/// One lot on one day: the cars it has after the move, the most it holds, the
/// point masses of its rentals and of its returns, and what stands for
/// certainty.
pub struct Lot {
    /// Cars on the lot after the move.
    pub n: int,
    /// The most cars that the lot holds.
    pub max_n: int,
    /// The point masses of the rentals.
    pub rent: spec_fn(int) -> int,
    /// The point masses of the returns.
    pub back: spec_fn(int) -> int,
    /// The weight of certainty.
    pub whole: int,
}

impl Lot {
    /// Whether the lot has no more cars than it holds.
    pub open spec fn wf(self) -> bool {
        0 <= self.n <= self.max_n <= 255
    }

    /// The weight of renting `x` cars and then taking back so many that `m`
    /// cars stand on the lot the next morning; nothing where that cannot be.
    pub open spec fn term(self, x: int, m: int) -> int {
        if 0 <= x <= self.n && 0 <= m - self.n + x {
            weight(rent_mass(self.n, x, self.max_n), self.rent, self.whole) * weight(
                return_mass(self.n - x, m - self.n + x, self.max_n),
                self.back,
                self.whole,
            )
        } else {
            0
        }
    }

    /// The terms that leave `m` cars on the lot, by cars rented.
    pub open spec fn terms_to(self, m: int) -> spec_fn(int) -> int {
        |x: int| self.term(x, m)
    }

    /// The weight of finding `m` cars on the lot the next morning.
    pub open spec fn weight_to(self, m: int) -> int {
        sum(self.terms_to(m), self.n + 1)
    }

    /// The weights of the next mornings, by cars on the lot.
    pub open spec fn weights(self) -> spec_fn(int) -> int {
        |m: int| self.weight_to(m)
    }
}

/// The weights of a row of masses add up as the sum of the weights of its
/// places.
proof fn lemma_row_weight_is_sum(
    row: Seq<Mass>,
    pmf: spec_fn(int) -> int,
    whole: int,
    places: spec_fn(int) -> int,
)
    requires
        forall|i: int| 0 <= i < row.len() ==> #[trigger] places(i) == weight(row[i], pmf, whole),
    ensures
        row_weight(row, pmf, whole) == sum(places, row.len() as int),
    decreases row.len(),
{
    if row.len() > 0 {
        lemma_row_weight_is_sum(row.drop_last(), pmf, whole, places);
    }
}

/// The weights of renting `0 ..= n` cars from a lot with `n` cars add up to
/// the whole.
proof fn lemma_rentals_whole(lot: Lot, rents: spec_fn(int) -> int)
    requires
        lot.wf(),
        forall|x: int|
            0 <= x <= lot.n ==> #[trigger] rents(x) == weight(
                rent_mass(lot.n, x, lot.max_n),
                lot.rent,
                lot.whole,
            ),
    ensures
        sum(rents, lot.n + 1) == lot.whole,
{
    let row = rent_row(lot.n, lot.max_n);
    let places = |x: int| weight(rent_mass(lot.n, x, lot.max_n), lot.rent, lot.whole);
    lemma_rent_row_whole(lot.n, lot.max_n, lot.rent, lot.whole);
    lemma_row_weight_is_sum(row, lot.rent, lot.whole, places);
    lemma_sum_stops(places, lot.n + 1, lot.max_n + 1);
    lemma_sum_agrees(rents, places, lot.n + 1);
}

/// The weights of taking back `0 ..= free` cars onto a lot with `free` free
/// places add up to the whole.
proof fn lemma_returns_whole(lot: Lot, n: int, backs: spec_fn(int) -> int)
    requires
        lot.wf(),
        0 <= n <= lot.max_n,
        forall|y: int|
            0 <= y <= lot.max_n - n ==> #[trigger] backs(y) == weight(
                return_mass(n, y, lot.max_n),
                lot.back,
                lot.whole,
            ),
    ensures
        sum(backs, lot.max_n - n + 1) == lot.whole,
{
    let row = return_row(n, lot.max_n);
    let places = |y: int| weight(return_mass(n, y, lot.max_n), lot.back, lot.whole);
    lemma_return_row_whole(n, lot.max_n, lot.back, lot.whole);
    lemma_row_weight_is_sum(row, lot.back, lot.whole, places);
    lemma_sum_stops(places, lot.max_n - n + 1, lot.max_n + 1);
    lemma_sum_agrees(backs, places, lot.max_n - n + 1);
}

/// Whatever a lot rents out and takes back, it has some number of cars the
/// next morning: the weights of all those numbers add up to the whole of
/// rentals times the whole of returns.
pub proof fn lemma_lot_whole(lot: Lot)
    requires
        lot.wf(),
    ensures
        sum(lot.weights(), lot.max_n + 1) == lot.whole * lot.whole,
{
    let h = |m: int, x: int| lot.term(x, m);
    let rents = |x: int| weight(rent_mass(lot.n, x, lot.max_n), lot.rent, lot.whole);
    // By cars rented: every number of cars rented goes with the whole of the
    // returns.
    let by_rented = |x: int| sum(|m: int| h(m, x), lot.max_n + 1);
    let scaled = |x: int| lot.whole * rents(x);
    assert forall|x: int| 0 <= x < lot.n + 1 implies #[trigger] by_rented(x) == scaled(x) by {
        let left = lot.n - x;
        let after = |m: int| h(m, x);
        let backs = |y: int| weight(return_mass(left, y, lot.max_n), lot.back, lot.whole);
        let shifted = |y: int| rents(x) * backs(y);
        lemma_sum_starts(after, shifted, left, lot.max_n - left + 1);
        lemma_sum_scales(backs, rents(x), shifted, lot.max_n - left + 1);
        lemma_returns_whole(lot, left, backs);
        assert(rents(x) * lot.whole == lot.whole * rents(x)) by (nonlinear_arith);
    }
    assert forall|m: int| 0 <= m < lot.max_n + 1 implies #[trigger] (lot.weights())(m) == sum(
        |x: int| h(m, x),
        lot.n + 1,
    ) by {
        lemma_sum_agrees(lot.terms_to(m), |x: int| h(m, x), lot.n + 1);
    }
    lemma_sum_swaps(h, lot.weights(), by_rented, lot.max_n + 1, lot.n + 1);
    lemma_sum_agrees(by_rented, scaled, lot.n + 1);
    lemma_sum_scales(rents, lot.whole, scaled, lot.n + 1);
    lemma_rentals_whole(lot, rents);
}

/// Terms that are the products of two factors, one for each way of parting
/// a total, add up over all totals to the product of the factors' sums: `f`
/// is nothing outside `0 ..= n1`, `g` nothing outside `0 ..= n2`, and
/// `by_total(t)` is the sum of `f(x) * g(t - x)` over `x` in `0 ..= t`.
proof fn lemma_parted_totals(
    f: spec_fn(int) -> int,
    g: spec_fn(int) -> int,
    n1: int,
    n2: int,
    by_total: spec_fn(int) -> int,
)
    requires
        0 <= n1,
        0 <= n2,
        forall|x: int| x < 0 || x > n1 ==> #[trigger] f(x) == 0,
        forall|y: int| y < 0 || y > n2 ==> #[trigger] g(y) == 0,
        forall|t: int|
            0 <= t <= n1 + n2 ==> #[trigger] by_total(t) == sum(|x: int| f(x) * g(t - x), t + 1),
    ensures
        sum(by_total, n1 + n2 + 1) == sum(f, n1 + 1) * sum(g, n2 + 1),
{
    let top = n1 + n2;
    let h = |t: int, x: int| f(x) * g(t - x);
    let by_first = |x: int| sum(|t: int| h(t, x), top + 1);
    let scaled = |x: int| sum(g, n2 + 1) * f(x);
    assert forall|t: int| 0 <= t < top + 1 implies #[trigger] by_total(t) == sum(
        |x: int| h(t, x),
        top + 1,
    ) by {
        let short = |x: int| f(x) * g(t - x);
        let long = |x: int| h(t, x);
        assert forall|x: int| t + 1 <= x < top + 1 implies #[trigger] long(x) == 0 by {
            assert(g(t - x) == 0);
            assert(f(x) * 0 == 0) by (nonlinear_arith);
        }
        lemma_sum_stops(long, t + 1, top + 1);
        lemma_sum_agrees(short, long, t + 1);
    }
    assert forall|x: int| 0 <= x < top + 1 implies #[trigger] by_first(x) == scaled(x) by {
        let down = |t: int| h(t, x);
        if x <= n1 {
            let shifted = |j: int| f(x) * g(j);
            assert forall|t: int| 0 <= t < x implies #[trigger] down(t) == 0 by {
                assert(g(t - x) == 0);
                assert(f(x) * 0 == 0) by (nonlinear_arith);
            }
            lemma_sum_starts(down, shifted, x, top - x + 1);
            lemma_sum_scales(g, f(x), shifted, top - x + 1);
            lemma_sum_stops(g, n2 + 1, top - x + 1);
            assert(f(x) * sum(g, n2 + 1) == sum(g, n2 + 1) * f(x)) by (nonlinear_arith);
        } else {
            assert forall|t: int| 0 <= t < top + 1 implies #[trigger] down(t) == 0 by {
                assert(f(x) == 0);
                assert(0 * g(t - x) == 0) by (nonlinear_arith);
            }
            lemma_sum_of_zeros(down, top + 1);
            assert(sum(g, n2 + 1) * 0 == 0) by (nonlinear_arith);
        }
    }
    lemma_sum_swaps(h, by_total, by_first, top + 1, top + 1);
    lemma_sum_agrees(by_first, scaled, top + 1);
    lemma_sum_stops(scaled, n1 + 1, top + 1);
    lemma_sum_scales(f, sum(g, n2 + 1), scaled, n1 + 1);
    assert(sum(g, n2 + 1) * sum(f, n1 + 1) == sum(f, n1 + 1) * sum(g, n2 + 1))
        by (nonlinear_arith);
}

/// Terms that are the products of a factor for the row and a factor for the
/// column add up over a row-major grid to the product of the factors' sums.
proof fn lemma_grid_totals(
    f1: spec_fn(int) -> int,
    f2: spec_fn(int) -> int,
    rows: int,
    cols: int,
    cells: spec_fn(int) -> int,
)
    requires
        0 <= rows,
        0 < cols,
        forall|k: int|
            0 <= k < rows * cols ==> #[trigger] cells(k) == f1(k / cols) * f2(k % cols),
    ensures
        sum(cells, rows * cols) == sum(f1, rows) * sum(f2, cols),
    decreases rows,
{
    if rows == 0 {
        assert(0 * cols == 0);
        assert(0 * sum(f2, cols) == 0);
    } else {
        let above = (rows - 1) * cols;
        assert(rows * cols == (rows - 1) * cols + cols) by (nonlinear_arith);
        assert(0 <= (rows - 1) * cols) by (nonlinear_arith)
            requires
                0 <= rows - 1,
                0 < cols,
        ;
        lemma_grid_totals(f1, f2, rows - 1, cols, cells);
        let row = |j: int| cells(above + j);
        let scaled = |j: int| f1(rows - 1) * f2(j);
        assert forall|j: int| 0 <= j < cols implies #[trigger] row(j) == scaled(j) by {
            lemma_fundamental_div_mod_converse(above + j, cols, rows - 1, j);
        }
        lemma_sum_splits(cells, row, above, cols);
        lemma_sum_agrees(row, scaled, cols);
        lemma_sum_scales(f2, f1(rows - 1), scaled, cols);
        assert((sum(f1, rows - 1) + f1(rows - 1)) * sum(f2, cols) == sum(f1, rows - 1) * sum(
            f2,
            cols,
        ) + f1(rows - 1) * sum(f2, cols)) by (nonlinear_arith);
    }
}

/// The point masses of the four Poisson laws of an agency, and what stands
/// for certainty.
pub struct Laws {
    /// The point masses of the rentals at the first lot.
    pub rent1: spec_fn(int) -> int,
    /// The point masses of the returns at the first lot.
    pub return1: spec_fn(int) -> int,
    /// The point masses of the rentals at the second lot.
    pub rent2: spec_fn(int) -> int,
    /// The point masses of the returns at the second lot.
    pub return2: spec_fn(int) -> int,
    /// The weight of certainty under each law.
    pub whole: int,
}

impl Laws {
    /// The weight of a joint chance: the product of the weights of its four
    /// masses, each under its own law.
    pub open spec fn joint_weight(self, p: JointMass) -> int {
        (weight(p.rent1, self.rent1, self.whole) * weight(p.return1, self.return1, self.whole)) * (
        weight(p.rent2, self.rent2, self.whole) * weight(p.return2, self.return2, self.whole))
    }

    /// The weights of joint chances, as a function.
    pub open spec fn weigh(self) -> spec_fn(JointMass) -> int {
        |p: JointMass| self.joint_weight(p)
    }

    /// The first lot after `a` cars were moved away from it.
    pub open spec fn lot1(self, agency: RentalAgency, s1: State, a: int) -> Lot {
        Lot {
            n: s1.n1 - a,
            max_n: agency.max1 as int,
            rent: self.rent1,
            back: self.return1,
            whole: self.whole,
        }
    }

    /// The second lot after `a` cars were moved onto it.
    pub open spec fn lot2(self, agency: RentalAgency, s1: State, a: int) -> Lot {
        Lot {
            n: s1.n2 + a,
            max_n: agency.max2 as int,
            rent: self.rent2,
            back: self.return2,
            whole: self.whole,
        }
    }
}

/// The weights of the cases' outcomes, case by case.
pub open spec fn case_weights(
    cases: Seq<RewardCase>,
    w: spec_fn(JointMass) -> int,
) -> spec_fn(int) -> int {
    |i: int| case_weight(cases[i].outcomes@, w)
}

/// The weights of all outcomes of the cases of one next state, added up.
pub open spec fn cases_weight(cases: Seq<RewardCase>, w: spec_fn(JointMass) -> int) -> int {
    sum(case_weights(cases, w), cases.len() as int)
}

/// The weights of a plan's outcomes, next state by next state.
pub open spec fn state_weights(
    plan: Seq<Transition>,
    w: spec_fn(JointMass) -> int,
) -> spec_fn(int) -> int {
    |k: int| cases_weight(plan[k].rewards@, w)
}

/// The weights of all outcomes of a plan, added up.
pub open spec fn plan_weight(plan: Seq<Transition>, w: spec_fn(JointMass) -> int) -> int {
    sum(state_weights(plan, w), plan.len() as int)
}

/// The records of what is kept of the first `k` ways of parting `xt` rentals
/// weigh as much as the products of the two lots' terms for those ways.
proof fn lemma_trace_prefix(
    agency: RentalAgency,
    s1: State,
    s2: State,
    xt: int,
    a: int,
    laws: Laws,
    k: int,
    traced: Seq<OutcomeProb>,
    parts: spec_fn(int) -> int,
)
    requires
        laws.lot1(agency, s1, a).wf(),
        laws.lot2(agency, s1, a).wf(),
        0 <= xt <= 510,
        0 <= k <= xt + 1,
        ({
            let kept = Outcome::splits(s1, s2, xt, a).take(k).filter(
                Outcome::keeps(s1, s2, xt, a),
            );
            &&& traced.len() == kept.len()
            &&& forall|i: int|
                0 <= i < kept.len() ==> #[trigger] traced[i] == agency.record(
                    s1,
                    s2,
                    xt,
                    a,
                    kept[i],
                )
        }),
        forall|x: int|
            0 <= x <= xt ==> #[trigger] parts(x) == laws.lot1(agency, s1, a).term(x, s2.n1 as int)
                * laws.lot2(agency, s1, a).term(xt - x, s2.n2 as int),
    ensures
        case_weight(traced, laws.weigh()) == sum(parts, k),
    decreases k,
{
    reveal(Seq::filter);
    if k > 0 {
        let all = Outcome::splits(s1, s2, xt, a);
        let keep = Outcome::keeps(s1, s2, xt, a);
        let x = k - 1;
        let o = Outcome::split(s1, s2, xt, a, x);
        let before = all.take(k - 1).filter(keep);
        let lot1 = laws.lot1(agency, s1, a);
        let lot2 = laws.lot2(agency, s1, a);
        assert(all.take(k).drop_last() =~= all.take(k - 1));
        assert(all.take(k).last() == o);
        if keep(o) {
            assert(all.take(k).filter(keep) == before.push(o));
            let shorter = traced.drop_last();
            lemma_trace_prefix(agency, s1, s2, xt, a, laws, k - 1, shorter, parts);
            assert(traced.last() == agency.record(s1, s2, xt, a, o));
            assert((laws.weigh())(traced.last().prob) == parts(x));
        } else {
            assert(all.take(k).filter(keep) == before);
            lemma_trace_prefix(agency, s1, s2, xt, a, laws, k - 1, traced, parts);
            let t1 = lot1.term(x, s2.n1 as int);
            let t2 = lot2.term(xt - x, s2.n2 as int);
            assert(t1 == 0 || t2 == 0);
            assert(t1 * t2 == 0) by (nonlinear_arith)
                requires
                    t1 == 0 || t2 == 0,
            ;
        }
    }
}

/// Whatever happens in a day, something happens: over every next state and
/// every number of cars rented, the chances of all outcomes add up to
/// certainty, which is the whole of the four laws multiplied.
pub proof fn lemma_plan_is_certain(
    agency: RentalAgency,
    plan: Seq<Transition>,
    s1: State,
    a: int,
    pi: Policy,
    laws: Laws,
)
    requires
        agency.holds(s1),
        agency.feasible(s1, a),
        agency.is_value_plan(plan, s1, a, pi),
    ensures
        plan_weight(plan, laws.weigh()) == (laws.whole * laws.whole) * (laws.whole * laws.whole),
{
    let lot1 = laws.lot1(agency, s1, a);
    let lot2 = laws.lot2(agency, s1, a);
    let w = laws.weigh();
    let rows = agency.max1 + 1;
    let cols = agency.max2 + 1;
    let states = all_states(agency.max1, agency.max2);
    let cells = state_weights(plan, w);
    assert(plan.len() == rows * cols);
    assert forall|k: int| 0 <= k < rows * cols implies #[trigger] cells(k) == (lot1.weights())(
        k / cols,
    ) * (lot2.weights())(k % cols) by {
        let s2 = states[k];
        let cases = plan[k].rewards@;
        let f = lot1.terms_to(s2.n1 as int);
        let g = lot2.terms_to(s2.n2 as int);
        let by_total = case_weights(cases, w);
        lemma_state_at(agency.max1, agency.max2, k);
        lemma_fundamental_div_mod_converse(k, cols, s2.n1 as int, s2.n2 as int);
        assert(agency.is_transition(plan[k], s1, s2, a, pi));
        assert(cases.len() == lot1.n + lot2.n + 1);
        assert forall|t: int| 0 <= t <= lot1.n + lot2.n implies #[trigger] by_total(t) == sum(
            |x: int| f(x) * g(t - x),
            t + 1,
        ) by {
            let parts = |x: int| lot1.term(x, s2.n1 as int) * lot2.term(t - x, s2.n2 as int);
            let traced = agency.trace(s1, s2, t, a);
            let all = Outcome::splits(s1, s2, t, a);
            assert(agency.is_reward_case(cases[t], s1, s2, t, a));
            assert(all.take(t + 1) =~= all);
            lemma_trace_prefix(agency, s1, s2, t, a, laws, t + 1, traced, parts);
            lemma_sum_agrees(parts, |x: int| f(x) * g(t - x), t + 1);
        }
        lemma_parted_totals(f, g, lot1.n, lot2.n, by_total);
        assert(cells(k) == sum(by_total, lot1.n + lot2.n + 1));
        assert(sum(f, lot1.n + 1) == (lot1.weights())(s2.n1 as int));
        assert(sum(g, lot2.n + 1) == (lot2.weights())(s2.n2 as int));
    }
    lemma_grid_totals(lot1.weights(), lot2.weights(), rows, cols, cells);
    lemma_lot_whole(lot1);
    lemma_lot_whole(lot2);
}

} // verus!
