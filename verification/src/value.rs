//! What the terms of a plan are worth.
//!
//! The worth of a plan is stated over whole numbers: a weight for every
//! chance, a discount, and a number for every value bit pattern. What is
//! proved holds whatever these are, and so for the numbers of any evaluation
//! that adds and multiplies exactly.

use crate::cars::{OutcomeProb, RentalAgency, RewardCase, Transition};
use crate::mass::JointMass;
use crate::policy::Policy;
use crate::solver::{all_states, lemma_state_at, State};
use vstd::prelude::*;

verus! {

/// The weights of the outcomes' chances, added up, when `w` gives the weight
/// of a chance.
pub open spec fn case_weight(outcomes: Seq<OutcomeProb>, w: spec_fn(JointMass) -> int) -> int
    decreases outcomes.len(),
{
    if outcomes.len() == 0 {
        0
    } else {
        case_weight(outcomes.drop_last(), w) + w(outcomes.last().prob)
    }
}

/// What the cases of one next state add to a value: for each case the weight
/// of its outcomes, times its reward plus `future`, the discounted value of
/// the next state.
pub open spec fn cases_value(
    cases: Seq<RewardCase>,
    future: int,
    w: spec_fn(JointMass) -> int,
) -> int
    decreases cases.len(),
{
    if cases.len() == 0 {
        0
    } else {
        cases_value(cases.drop_last(), future, w) + case_weight(cases.last().outcomes@, w) * (
        cases.last().r + future)
    }
}

/// The value that a plan stands for when `w` gives the weight of a chance,
/// `g` is the discount and `v` the number behind a value bit pattern: the sum
/// over every next state and every reward of the chance of both, times the
/// reward plus the discounted value of the next state.
pub open spec fn plan_value(
    plan: Seq<Transition>,
    w: spec_fn(JointMass) -> int,
    g: int,
    v: spec_fn(u64) -> int,
) -> int
    decreases plan.len(),
{
    if plan.len() == 0 {
        0
    } else {
        plan_value(plan.drop_last(), w, g, v) + cases_value(
            plan.last().rewards@,
            g * v(plan.last().v_s2),
            w,
        )
    }
}

/// With no car on either lot, no car can be moved.
pub proof fn lemma_empty_lots_admit_no_move(agency: RentalAgency, a: int)
    ensures
        agency.feasible(State { n1: 0, n2: 0 }, a) <==> a == 0,
{
}

/// A move that cannot be made is worth nothing, whatever the chances, the
/// discount and the values kept are.
pub proof fn lemma_impossible_move_is_worth_nothing(
    agency: RentalAgency,
    plan: Seq<Transition>,
    s1: State,
    a: int,
    pi: Policy,
    w: spec_fn(JointMass) -> int,
    g: int,
    v: spec_fn(u64) -> int,
)
    requires
        agency.is_value_plan(plan, s1, a, pi),
        !agency.feasible(s1, a),
    ensures
        plan_value(plan, w, g, v) == 0,
{
}

/// With no car on either lot and nothing but zero kept as a value, standing
/// still is worth nothing, whatever the chances and the discount are: there
/// is no car to rent, so no reward.
pub proof fn lemma_empty_lots_are_worth_nothing(
    agency: RentalAgency,
    plan: Seq<Transition>,
    pi: Policy,
    w: spec_fn(JointMass) -> int,
    g: int,
    v: spec_fn(u64) -> int,
)
    requires
        agency.is_value_plan(plan, State { n1: 0, n2: 0 }, 0, pi),
        forall|n1: int, n2: int|
            0 <= n1 <= agency.max1 && 0 <= n2 <= agency.max2 ==> v(
                #[trigger] pi.value_at(n1, n2, 0),
            ) == 0,
    ensures
        plan_value(plan, w, g, v) == 0,
{
    lemma_empty_lots_prefix(agency, plan, pi, w, g, v, plan.len() as int);
    assert(plan.take(plan.len() as int) =~= plan);
}

/// The first `k` transitions of the plan for standing still on empty lots
/// are worth nothing.
proof fn lemma_empty_lots_prefix(
    agency: RentalAgency,
    plan: Seq<Transition>,
    pi: Policy,
    w: spec_fn(JointMass) -> int,
    g: int,
    v: spec_fn(u64) -> int,
    k: int,
)
    requires
        agency.is_value_plan(plan, State { n1: 0, n2: 0 }, 0, pi),
        forall|n1: int, n2: int|
            0 <= n1 <= agency.max1 && 0 <= n2 <= agency.max2 ==> v(
                #[trigger] pi.value_at(n1, n2, 0),
            ) == 0,
        0 <= k <= plan.len(),
    ensures
        plan_value(plan.take(k), w, g, v) == 0,
    decreases k,
{
    if k > 0 {
        lemma_empty_lots_prefix(agency, plan, pi, w, g, v, k - 1);
        let s1 = State { n1: 0, n2: 0 };
        let t = plan[k - 1];
        let s2 = all_states(agency.max1, agency.max2)[k - 1];
        assert(plan.take(k).drop_last() =~= plan.take(k - 1));
        assert(plan.take(k).last() == t);
        assert(agency.is_transition(t, s1, s2, 0, pi));
        lemma_state_at(agency.max1, agency.max2, k - 1);
        assert(v(pi.value_at(s2.n1 as int, s2.n2 as int, 0)) == 0);
        let cases = t.rewards@;
        assert(cases.len() == 1);
        assert(agency.is_reward_case(cases[0], s1, s2, 0, 0));
        assert(cases_value(cases.drop_last(), g * v(t.v_s2), w) == 0);
        assert(cases_value(cases, g * v(t.v_s2), w) == case_weight(cases.last().outcomes@, w) * (
        cases.last().r + g * v(t.v_s2)));
        assert(g * v(t.v_s2) == 0) by (nonlinear_arith)
            requires
                v(t.v_s2) == 0,
        ;
        assert(case_weight(cases.last().outcomes@, w) * (0 + 0) == 0) by (nonlinear_arith);
    }
}

/// Outcomes whose chances weigh nothing less than nothing weigh nothing less
/// than nothing together.
proof fn lemma_case_weight_not_negative(outcomes: Seq<OutcomeProb>, w: spec_fn(JointMass) -> int)
    requires
        forall|p: JointMass| #[trigger] w(p) >= 0,
    ensures
        case_weight(outcomes, w) >= 0,
    decreases outcomes.len(),
{
    if outcomes.len() > 0 {
        lemma_case_weight_not_negative(outcomes.drop_last(), w);
    }
}

/// The more the next state is worth, the more the cases are worth.
proof fn lemma_cases_value_grows(
    cases: Seq<RewardCase>,
    less: int,
    more: int,
    w: spec_fn(JointMass) -> int,
)
    requires
        forall|p: JointMass| #[trigger] w(p) >= 0,
        less <= more,
    ensures
        cases_value(cases, less, w) <= cases_value(cases, more, w),
    decreases cases.len(),
{
    if cases.len() > 0 {
        let c = cases.last();
        let weight = case_weight(c.outcomes@, w);
        lemma_cases_value_grows(cases.drop_last(), less, more, w);
        lemma_case_weight_not_negative(c.outcomes@, w);
        assert(weight * (c.r + less) <= weight * (c.r + more)) by (nonlinear_arith)
            requires
                weight >= 0,
                less <= more,
        ;
    }
}

/// Cases with rewards of nothing less than nothing, on the way to a next
/// state worth nothing less than nothing, are worth nothing less than
/// nothing.
proof fn lemma_cases_value_not_negative(
    cases: Seq<RewardCase>,
    future: int,
    w: spec_fn(JointMass) -> int,
)
    requires
        forall|p: JointMass| #[trigger] w(p) >= 0,
        forall|i: int| 0 <= i < cases.len() ==> (#[trigger] cases[i]).r >= 0,
        future >= 0,
    ensures
        cases_value(cases, future, w) >= 0,
    decreases cases.len(),
{
    if cases.len() > 0 {
        let c = cases.last();
        let weight = case_weight(c.outcomes@, w);
        assert forall|i: int| 0 <= i < cases.drop_last().len() implies (
        #[trigger] cases.drop_last()[i]).r >= 0 by {
            assert(cases.drop_last()[i] == cases[i]);
        }
        lemma_cases_value_not_negative(cases.drop_last(), future, w);
        lemma_case_weight_not_negative(c.outcomes@, w);
        assert(weight * (c.r + future) >= 0) by (nonlinear_arith)
            requires
                weight >= 0,
                c.r + future >= 0,
        ;
    }
}

/// A greater discount makes no plan worth less, where no chance weighs less
/// than nothing and no value that the plan holds stands for less than
/// nothing.
pub proof fn lemma_value_grows_with_discount(
    plan: Seq<Transition>,
    w: spec_fn(JointMass) -> int,
    less: int,
    more: int,
    v: spec_fn(u64) -> int,
)
    requires
        forall|p: JointMass| #[trigger] w(p) >= 0,
        forall|k: int| 0 <= k < plan.len() ==> v((#[trigger] plan[k]).v_s2) >= 0,
        less <= more,
    ensures
        plan_value(plan, w, less, v) <= plan_value(plan, w, more, v),
    decreases plan.len(),
{
    if plan.len() > 0 {
        let t = plan.last();
        assert forall|k: int| 0 <= k < plan.drop_last().len() implies v(
            (#[trigger] plan.drop_last()[k]).v_s2,
        ) >= 0 by {
            assert(plan.drop_last()[k] == plan[k]);
        }
        lemma_value_grows_with_discount(plan.drop_last(), w, less, more, v);
        assert(less * v(t.v_s2) <= more * v(t.v_s2)) by (nonlinear_arith)
            requires
                v(t.v_s2) >= 0,
                less <= more,
        ;
        lemma_cases_value_grows(t.rewards@, less * v(t.v_s2), more * v(t.v_s2), w);
    }
}

/// Standing still is never worth less than nothing, where no chance weighs
/// less than nothing, no value that the plan holds stands for less than
/// nothing, and the discount is not negative: without a move there is no
/// cost.
pub proof fn lemma_standing_still_is_not_negative(
    agency: RentalAgency,
    plan: Seq<Transition>,
    s1: State,
    pi: Policy,
    w: spec_fn(JointMass) -> int,
    g: int,
    v: spec_fn(u64) -> int,
)
    requires
        agency.is_value_plan(plan, s1, 0, pi),
        forall|p: JointMass| #[trigger] w(p) >= 0,
        forall|k: int| 0 <= k < plan.len() ==> v((#[trigger] plan[k]).v_s2) >= 0,
        g >= 0,
    ensures
        plan_value(plan, w, g, v) >= 0,
{
    lemma_standing_still_prefix(agency, plan, s1, pi, w, g, v, plan.len() as int);
    assert(plan.take(plan.len() as int) =~= plan);
}

/// The first `k` transitions of a plan for standing still are not worth less
/// than nothing.
proof fn lemma_standing_still_prefix(
    agency: RentalAgency,
    plan: Seq<Transition>,
    s1: State,
    pi: Policy,
    w: spec_fn(JointMass) -> int,
    g: int,
    v: spec_fn(u64) -> int,
    k: int,
)
    requires
        agency.is_value_plan(plan, s1, 0, pi),
        forall|p: JointMass| #[trigger] w(p) >= 0,
        forall|k: int| 0 <= k < plan.len() ==> v((#[trigger] plan[k]).v_s2) >= 0,
        g >= 0,
        0 <= k <= plan.len(),
    ensures
        plan_value(plan.take(k), w, g, v) >= 0,
    decreases k,
{
    if k > 0 {
        lemma_standing_still_prefix(agency, plan, s1, pi, w, g, v, k - 1);
        let t = plan[k - 1];
        let s2 = all_states(agency.max1, agency.max2)[k - 1];
        assert(plan.take(k).drop_last() =~= plan.take(k - 1));
        assert(plan.take(k).last() == t);
        assert(agency.is_transition(t, s1, s2, 0, pi));
        let cases = t.rewards@;
        assert forall|i: int| 0 <= i < cases.len() implies (#[trigger] cases[i]).r >= 0 by {
            assert(agency.is_reward_case(cases[i], s1, s2, i, 0));
        }
        assert(g * v(t.v_s2) >= 0) by (nonlinear_arith)
            requires
                g >= 0,
                v(t.v_s2) >= 0,
        ;
        lemma_cases_value_not_negative(cases, g * v(t.v_s2), w);
    }
}

} // verus!
