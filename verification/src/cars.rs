//! The rental agency: its two lots and their tables of chances, the reward of
//! a day, and the terms that make up the value of an action.

use crate::mass::{
    filled_masses, is_rent_table, is_return_table, mass_shape, read_mass, rent_mass, return_mass,
    write_mass, JointMass, Mass, MassGrid,
};
use crate::policy::Policy;
use crate::solver::{
    all_states, lemma_solutions_reconcile, lemma_solutions_unreachable, state_count, Outcome,
    State, StateIterator,
};
use vstd::prelude::*;

verus! {

/// Ten for each car rented, less two for each car moved, whichever way.
pub open spec fn reward_of(xt: int, a: int) -> int {
    10 * xt - 2 * (if a < 0 {
        -a
    } else {
        a
    })
}

/// Whether `r` is the reward of some whole number of cars when `a` cars were
/// moved.
pub open spec fn is_whole_reward(r: int, a: int) -> bool {
    (r - reward_of(0, a)) % 10 == 0
}

/// The number of cars rented that gives the reward `r` when `a` cars were
/// moved.
pub open spec fn cars_of(r: int, a: int) -> int {
    (r - reward_of(0, a)) / 10
}

/// The number of cars found from a reward is the number that gave the
/// reward.
pub proof fn lemma_cars_rented_inverts_reward(xt: int, a: int)
    ensures
        is_whole_reward(reward_of(xt, a), a),
        cars_of(reward_of(xt, a), a) == xt,
{
    assert(reward_of(xt, a) - reward_of(0, a) == 10 * xt);
    assert((10 * xt) % 10 == 0 && (10 * xt) / 10 == xt) by (nonlinear_arith);
}

/// The reward of the number of cars found from a whole reward is that reward.
pub proof fn lemma_reward_inverts_cars_rented(r: int, a: int)
    requires
        is_whole_reward(r, a),
    ensures
        reward_of(cars_of(r, a), a) == r,
{
    let d = r - reward_of(0, a);
    vstd::arithmetic::div_mod::lemma_fundamental_div_mod(d, 10);
}

/// Why no number of rented cars could be found for a reward.
#[derive(Debug, Clone, Copy, PartialEq, Eq, Structural)]
pub enum RewardError {
    /// The reward, with the cost of the move added back, is not a multiple of
    /// ten.
    NotWhole,
    /// The number of cars is negative or more than 255.
    OutOfRange,
}

/// Why an agency could not be set up.
#[derive(Debug, Clone, Copy, PartialEq, Eq, Structural)]
pub enum ConfigError {
    /// More cars may be moved than half of what the smaller lot holds.
    MaxMoveTooLarge,
}

/// One outcome of a transition together with its chance, for tracing.
#[derive(Debug, Clone, Copy, PartialEq, Eq, Structural)]
pub struct OutcomeProb {
    /// Cars at the first lot before the move.
    pub s1_n1: u8,
    /// Cars at the second lot before the move.
    pub s1_n2: u8,
    /// Cars at the first lot the next morning.
    pub s2_n1: u8,
    /// Cars at the second lot the next morning.
    pub s2_n2: u8,
    /// Cars rented at both lots together.
    pub xt: u32,
    /// Cars moved from the first lot to the second.
    pub a: i8,
    /// The reward of the day.
    pub r: i32,
    /// Cars rented at the first lot.
    pub x1: i32,
    /// Cars rented at the second lot.
    pub x2: i32,
    /// Cars returned at the first lot.
    pub y1: i32,
    /// Cars returned at the second lot.
    pub y2: i32,
    /// The chance of this outcome.
    pub prob: JointMass,
}

impl OutcomeProb {
    /// The record of `ocome` on the way from `s1` to `s2`.
    pub fn new(
        s1: &State,
        s2: &State,
        xt: u32,
        a: i8,
        r: i32,
        ocome: &Outcome,
        prob: JointMass,
    ) -> (rec: OutcomeProb)
        ensures
            rec == (OutcomeProb {
                s1_n1: s1.n1,
                s1_n2: s1.n2,
                s2_n1: s2.n1,
                s2_n2: s2.n2,
                xt,
                a,
                r,
                x1: ocome.x1 as i32,
                x2: ocome.x2 as i32,
                y1: ocome.y1 as i32,
                y2: ocome.y2 as i32,
                prob,
            }),
    {
        OutcomeProb {
            s1_n1: s1.n1,
            s1_n2: s1.n2,
            s2_n1: s2.n1,
            s2_n2: s2.n2,
            xt,
            a,
            r,
            x1: ocome.x1 as i32,
            x2: ocome.x2 as i32,
            y1: ocome.y1 as i32,
            y2: ocome.y2 as i32,
            prob,
        }
    }
}

/// Two lots, the most cars that can be moved between them overnight, and the
/// chances of rentals and returns at each lot.
///
/// The tables `x1`, `y1`, `x2` and `y2` are found under the cars on the lot
/// and the cars rented or returned.
pub struct RentalAgency {
    /// The most cars that the first lot holds.
    pub max1: u8,
    /// Rental chances at the first lot.
    pub x1: MassGrid,
    /// Return chances at the first lot.
    pub y1: MassGrid,
    /// The most cars that the second lot holds.
    pub max2: u8,
    /// Rental chances at the second lot.
    pub x2: MassGrid,
    /// Return chances at the second lot.
    pub y2: MassGrid,
    /// The most cars that can be moved between the lots.
    pub max_move: u8,
}

/// The smaller of two numbers.
pub open spec fn min_of(a: int, b: int) -> int {
    if a <= b {
        a
    } else {
        b
    }
}

/// The outcomes that bring the reward `r` on the way to one next state. The
/// chance of that reward together with that next state is the sum of the
/// outcomes' chances.
#[derive(Debug, Clone)]
pub struct RewardCase {
    /// The reward of the day.
    pub r: i32,
    /// The outcomes that bring it, by increasing rentals at the first lot.
    pub outcomes: Vec<OutcomeProb>,
}

/// All that the value of an action owes to one next state.
#[derive(Debug, Clone)]
pub struct Transition {
    /// The next state.
    pub s2: State,
    /// The value bit pattern kept for the next state under the same action.
    pub v_s2: u64,
    /// A case for each number of cars rented, from none to all.
    pub rewards: Vec<RewardCase>,
}

impl RentalAgency {
    /// Whether the move bound is at most half of the smaller lot and the four
    /// tables are those of the two lots.
    pub open spec fn wf(&self) -> bool {
        &&& self.max_move <= min_of(self.max1 as int, self.max2 as int) / 2
        &&& is_rent_table(self.x1, self.max1 as int)
        &&& is_return_table(self.y1, self.max1 as int)
        &&& is_rent_table(self.x2, self.max2 as int)
        &&& is_return_table(self.y2, self.max2 as int)
    }

    /// Whether `s` has no more cars on either lot than the lot holds.
    pub open spec fn holds(&self, s: State) -> bool {
        s.n1 <= self.max1 && s.n2 <= self.max2
    }

    /// Whether `a` cars can be moved from the first lot to the second when
    /// the day starts in `s1`: the giving lot has them and the taking lot has
    /// room for them. Moving nothing is always possible.
    pub open spec fn feasible(&self, s1: State, a: int) -> bool {
        if a > 0 {
            a + s1.n2 <= self.max2 && s1.n1 - a >= 0
        } else if a < 0 {
            s1.n1 - a <= self.max1 && s1.n2 + a >= 0
        } else {
            true
        }
    }

    /// Whether every table entry that the chance of `o` is made of exists,
    /// when `a` cars are moved after the day started in `s`.
    pub open spec fn in_tables(&self, s: State, a: int, o: Outcome) -> bool {
        &&& 0 <= o.x1 <= s.n1 - a <= self.max1
        &&& 0 <= o.y1 <= self.max1
        &&& 0 <= o.x2 <= s.n2 + a <= self.max2
        &&& 0 <= o.y2 <= self.max2
    }

    /// The chance of `o` when `a` cars are moved after the day started in
    /// `s`: at each lot the rentals out of the cars left after the move, and
    /// the returns onto what the rentals left.
    pub open spec fn joint_mass(&self, s: State, a: int, o: Outcome) -> JointMass {
        JointMass {
            rent1: rent_mass(s.n1 - a, o.x1 as int, self.max1 as int),
            return1: return_mass(s.n1 - a - o.x1, o.y1 as int, self.max1 as int),
            rent2: rent_mass(s.n2 + a, o.x2 as int, self.max2 as int),
            return2: return_mass(s.n2 + a - o.x2, o.y2 as int, self.max2 as int),
        }
    }

    /// The record of `o` on the way from `s1` to `s2` with `a` cars moved and
    /// `xt` cars rented.
    pub open spec fn record(&self, s1: State, s2: State, xt: int, a: int, o: Outcome) -> OutcomeProb {
        OutcomeProb {
            s1_n1: s1.n1,
            s1_n2: s1.n2,
            s2_n1: s2.n1,
            s2_n2: s2.n2,
            xt: xt as u32,
            a: a as i8,
            r: reward_of(xt, a) as i32,
            x1: o.x1 as i32,
            x2: o.x2 as i32,
            y1: o.y1 as i32,
            y2: o.y2 as i32,
            prob: self.joint_mass(s1, a, o),
        }
    }

    /// The records of all outcomes that lead from `s1` to `s2` with `a` cars
    /// moved and `xt` cars rented, by increasing rentals at the first lot.
    pub open spec fn trace(&self, s1: State, s2: State, xt: int, a: int) -> Seq<OutcomeProb> {
        Outcome::solutions(s1, s2, xt, a).map_values(
            |o: Outcome| self.record(s1, s2, xt, a, o),
        )
    }

    /// An agency with lots of `max1` and `max2` cars and moves of up to
    /// `max_move` cars, with its four tables filled in.
    pub fn new(max1: u8, max2: u8, max_move: u8) -> (agency: RentalAgency)
        requires
            max_move <= min_of(max1 as int, max2 as int) / 2,
        ensures
            agency.wf(),
            agency.max1 == max1,
            agency.max2 == max2,
            agency.max_move == max_move,
    {
        let x1_probs = RentalAgency::calc_rent_probs(max1);
        let y1_probs = RentalAgency::calc_return_probs(max1);
        let x2_probs = RentalAgency::calc_rent_probs(max2);
        let y2_probs = RentalAgency::calc_return_probs(max2);
        RentalAgency {
            max1,
            x1: x1_probs,
            y1: y1_probs,
            max2,
            x2: x2_probs,
            y2: y2_probs,
            max_move,
        }
    }

    /// An agency as [`RentalAgency::new`] makes it, or the reason why the
    /// three bounds do not go together.
    pub fn try_new(max1: u8, max2: u8, max_move: u8) -> (res: Result<RentalAgency, ConfigError>)
        ensures
            res is Ok <==> max_move <= min_of(max1 as int, max2 as int) / 2,
            res is Err ==> res->Err_0 == ConfigError::MaxMoveTooLarge,
            res is Ok ==> {
                &&& res->Ok_0.wf()
                &&& res->Ok_0.max1 == max1
                &&& res->Ok_0.max2 == max2
                &&& res->Ok_0.max_move == max_move
            },
    {
        let smaller: u8 = if max1 <= max2 {
            max1
        } else {
            max2
        };
        if max_move > smaller / 2 {
            return Err(ConfigError::MaxMoveTooLarge);
        }
        Ok(RentalAgency::new(max1, max2, max_move))
    }

    /// The table of rental chances for a lot of `max_n` cars.
    pub fn calc_rent_probs(max_n: u8) -> (x_probs: MassGrid)
        ensures
            is_rent_table(x_probs, max_n as int),
    {
        let dim: usize = max_n as usize + 1;
        let mut x_probs = filled_masses(dim, dim, Mass::Zero);
        let mut n: usize = 0;
        while n < dim
            invariant
                n <= dim,
                dim == max_n + 1,
                mass_shape(x_probs, dim as int, dim as int),
                forall|i: int, j: int|
                    0 <= i < n && 0 <= j < dim ==> #[trigger] x_probs.at(i, j) == rent_mass(
                        i,
                        j,
                        max_n as int,
                    ),
            decreases dim - n,
        {
            let mut x: usize = 0;
            while x < dim
                invariant
                    x <= dim,
                    n < dim,
                    dim == max_n + 1,
                    mass_shape(x_probs, dim as int, dim as int),
                    forall|i: int, j: int|
                        0 <= i < n && 0 <= j < dim ==> #[trigger] x_probs.at(i, j)
                            == rent_mass(i, j, max_n as int),
                    forall|j: int|
                        0 <= j < x ==> #[trigger] x_probs.at(n as int, j) == rent_mass(
                            n as int,
                            j,
                            max_n as int,
                        ),
                decreases dim - x,
            {
                write_mass(
                    &mut x_probs,
                    n,
                    x,
                    RentalAgency::rent_prob(n as u8, x as u8, max_n),
                );
                x = x + 1;
            }
            n = n + 1;
        }
        x_probs
    }

    /// The chance that a lot with `n` cars rents out `x` of them.
    pub fn rent_prob(n: u8, x: u8, max_n: u8) -> (m: Mass)
        ensures
            m == rent_mass(n as int, x as int, max_n as int),
    {
        // The lot cannot hold more than `max_n` cars.
        if n > max_n {
            return Mass::Zero;
        }
        // With no car on the lot, nothing can be rented.
        if n == 0 && x == 0 {
            return Mass::One;
        }
        // Fewer cars are rented than the lot has.
        if x < n {
            return Mass::Point(x);
        }
        // The lot is rented empty: all that is left of the whole.
        if x == n {
            return Mass::Tail(n - 1);
        }
        // More cars than the lot has cannot be rented.
        Mass::Zero
    }

    /// The table of return chances for a lot of `max_n` cars.
    pub fn calc_return_probs(max_n: u8) -> (y_probs: MassGrid)
        ensures
            is_return_table(y_probs, max_n as int),
    {
        let dim: usize = max_n as usize + 1;
        let mut y_probs = filled_masses(dim, dim, Mass::Zero);
        let mut n: usize = 0;
        while n < dim
            invariant
                n <= dim,
                dim == max_n + 1,
                mass_shape(y_probs, dim as int, dim as int),
                forall|i: int, j: int|
                    0 <= i < n && 0 <= j < dim ==> #[trigger] y_probs.at(i, j) == return_mass(
                        i,
                        j,
                        max_n as int,
                    ),
            decreases dim - n,
        {
            let mut y: usize = 0;
            while y < dim
                invariant
                    y <= dim,
                    n < dim,
                    dim == max_n + 1,
                    mass_shape(y_probs, dim as int, dim as int),
                    forall|i: int, j: int|
                        0 <= i < n && 0 <= j < dim ==> #[trigger] y_probs.at(i, j)
                            == return_mass(i, j, max_n as int),
                    forall|j: int|
                        0 <= j < y ==> #[trigger] y_probs.at(n as int, j) == return_mass(
                            n as int,
                            j,
                            max_n as int,
                        ),
                decreases dim - y,
            {
                write_mass(
                    &mut y_probs,
                    n,
                    y,
                    RentalAgency::return_prob(n as u8, y as u8, max_n),
                );
                y = y + 1;
            }
            n = n + 1;
        }
        y_probs
    }

    /// The chance that a lot with `n` cars takes back `y` cars.
    pub fn return_prob(n: u8, y: u8, max_n: u8) -> (m: Mass)
        ensures
            m == return_mass(n as int, y as int, max_n as int),
    {
        // The lot cannot hold more than `max_n` cars.
        if n > max_n {
            return Mass::Zero;
        }
        // There is no room for that many cars.
        if y > max_n - n {
            return Mass::Zero;
        }
        // A full lot takes back nothing.
        if n == max_n {
            return Mass::One;
        }
        // Fewer cars come back than the lot has free places.
        if y < max_n - n {
            return Mass::Point(y);
        }
        // The lot is filled: all that is left of the whole.
        Mass::Tail(max_n - n - 1)
    }

    /// The chance of `outcome` when `a` cars are moved after the day started
    /// in `s`, as the four chances whose product it is.
    pub fn outcome_prob(&self, s: &State, a: i8, outcome: &Outcome) -> (p: JointMass)
        requires
            self.wf(),
            self.in_tables(*s, a as int, *outcome),
        ensures
            p == self.joint_mass(*s, a as int, *outcome),
    {
        let n1: usize = (s.n1 as i16 - a as i16) as usize;
        let p_x1 = read_mass(&self.x1, n1, outcome.x1 as usize);
        let p_y1 = read_mass(&self.y1, n1 - outcome.x1 as usize, outcome.y1 as usize);
        let n2: usize = (s.n2 as i16 + a as i16) as usize;
        let p_x2 = read_mass(&self.x2, n2, outcome.x2 as usize);
        let p_y2 = read_mass(&self.y2, n2 - outcome.x2 as usize, outcome.y2 as usize);
        JointMass { rent1: p_x1, return1: p_y1, rent2: p_x2, return2: p_y2 }
    }

    /// The number of cars rented, from the reward `r` and the cars moved `a`.
    pub fn cars_rented(r: i16, a: i16) -> (cars: u8)
        requires
            is_whole_reward(r as int, a as int),
            0 <= cars_of(r as int, a as int) <= u8::MAX,
        ensures
            cars == cars_of(r as int, a as int),
    {
        let moved: i32 = if a < 0 {
            -(a as i32)
        } else {
            a as i32
        };
        let cars: i32 = (r as i32 + 2 * moved) / 10;
        cars as u8
    }

    /// The number of cars rented, from the reward `r` and the cars moved `a`,
    /// or the reason why there is none.
    pub fn try_cars_rented(r: i16, a: i16) -> (res: Result<u8, RewardError>)
        ensures
            res is Ok <==> is_whole_reward(r as int, a as int) && 0 <= cars_of(r as int, a as int)
                <= u8::MAX,
            res is Ok ==> res->Ok_0 == cars_of(r as int, a as int),
            res is Err ==> (res->Err_0 == RewardError::NotWhole <==> !is_whole_reward(
                r as int,
                a as int,
            )),
            res is Err ==> (res->Err_0 == RewardError::OutOfRange <==> is_whole_reward(
                r as int,
                a as int,
            )),
    {
        let moved: i32 = if a < 0 {
            -(a as i32)
        } else {
            a as i32
        };
        let gross: i32 = r as i32 + 2 * moved;
        if gross % 10 != 0 {
            return Err(RewardError::NotWhole);
        }
        if gross < 0 || gross / 10 > 255 {
            return Err(RewardError::OutOfRange);
        }
        Ok(RentalAgency::cars_rented(r, a))
    }

    /// The reward of a day on which `xt` cars were rented and `a` cars moved.
    pub fn reward(xt: u32, a: i8) -> (r: i32)
        requires
            reward_of(xt as int, a as int) <= i32::MAX,
        ensures
            r == reward_of(xt as int, a as int),
    {
        let moved: i64 = if a < 0 {
            -(a as i64)
        } else {
            a as i64
        };
        (xt as i64 * 10 - 2 * moved) as i32
    }

    /// Whether `c` is the case of `xt` cars rented on the way from `s1` to
    /// `s2` with `a` cars moved.
    pub open spec fn is_reward_case(
        &self,
        c: RewardCase,
        s1: State,
        s2: State,
        xt: int,
        a: int,
    ) -> bool {
        &&& c.r == reward_of(xt, a)
        &&& c.outcomes@ == self.trace(s1, s2, xt, a)
    }

    /// Whether `t` holds what the value of moving `a` cars in `s1` owes to
    /// the next state `s2`, with the values of `pi`: a case for each number
    /// of cars rented, from none to all that both lots have.
    pub open spec fn is_transition(
        &self,
        t: Transition,
        s1: State,
        s2: State,
        a: int,
        pi: Policy,
    ) -> bool {
        &&& t.s2 == s2
        &&& t.v_s2 == pi.value_at(s2.n1 as int, s2.n2 as int, a)
        &&& t.rewards.len() == s1.n1 + s1.n2 + 1
        &&& forall|xt: int|
            0 <= xt < t.rewards.len() ==> self.is_reward_case(
                #[trigger] t.rewards[xt],
                s1,
                s2,
                xt,
                a,
            )
    }

    /// Whether `plan` holds the terms of the value of moving `a` cars in
    /// `s1`: nothing where the move cannot be made, and else one transition
    /// for every state within the capacities, in row-major order.
    pub open spec fn is_value_plan(
        &self,
        plan: Seq<Transition>,
        s1: State,
        a: int,
        pi: Policy,
    ) -> bool {
        if self.feasible(s1, a) {
            &&& plan.len() == state_count(self.max1, self.max2)
            &&& forall|k: int|
                0 <= k < plan.len() ==> self.is_transition(
                    #[trigger] plan[k],
                    s1,
                    all_states(self.max1, self.max2)[k],
                    a,
                    pi,
                )
        } else {
            plan.len() == 0
        }
    }

    /// Whether `a` cars can be moved from the first lot to the second when
    /// the day starts in `s1`.
    pub fn is_feasible(&self, s1: &State, a: i8) -> (ok: bool)
        ensures
            ok == self.feasible(*s1, a as int),
    {
        let a: i16 = a as i16;
        if a > 0 {
            a + s1.n2 as i16 <= self.max2 as i16 && s1.n1 as i16 - a >= 0
        } else if a < 0 {
            s1.n1 as i16 - a <= self.max1 as i16 && s1.n2 as i16 + a >= 0
        } else {
            true
        }
    }

    /// The least and the greatest number of cars that can be moved from the
    /// first lot to the second when the day starts in `s1`: every move
    /// between the two can be made, and no other within the move bound.
    pub fn move_range(&self, s1: &State) -> (range: (i8, i8))
        requires
            self.wf(),
            self.holds(*s1),
        ensures
            range.0 == -min_of(
                min_of(self.max_move as int, s1.n2 as int),
                self.max1 - s1.n1,
            ),
            range.1 == min_of(min_of(self.max_move as int, s1.n1 as int), self.max2 - s1.n2),
            forall|a: int|
                range.0 <= a <= range.1 <==> self.feasible(*s1, a) && -self.max_move <= a
                    <= self.max_move,
    {
        let back: u8 = smaller(smaller(self.max_move, s1.n2), self.max1 - s1.n1);
        let forth: u8 = smaller(smaller(self.max_move, s1.n1), self.max2 - s1.n2);
        (-(back as i8), forth as i8)
    }

    /// The reward of `xt` cars rented with `a` cars moved, and the record of
    /// every outcome that leads from `s1` to `s2` with them.
    pub fn calc_reward_prob(&self, s1: &State, s2: &State, a: i8, xt: u32) -> (res: (
        i32,
        Vec<OutcomeProb>,
    ))
        requires
            self.wf(),
            self.holds(*s2),
            s1.n1 - a <= self.max1,
            s1.n2 + a <= self.max2,
            reward_of(xt as int, a as int) <= i32::MAX,
        ensures
            res.0 == reward_of(xt as int, a as int),
            res.1@ == self.trace(*s1, *s2, xt as int, a as int),
    {
        let r = RentalAgency::reward(xt, a);
        let ghost sols = Outcome::solutions(*s1, *s2, xt as int, a as int);
        let outcomes = if xt > 510 {
            proof {
                lemma_solutions_unreachable(*s1, *s2, xt as int, a as int);
            }
            Vec::new()
        } else {
            Outcome::solve(s1, s2, xt as u16, a as i16)
        };
        let mut oprobs: Vec<OutcomeProb> = Vec::new();
        let mut i: usize = 0;
        while i < outcomes.len()
            invariant
                self.wf(),
                self.holds(*s2),
                s1.n1 - a <= self.max1,
                s1.n2 + a <= self.max2,
                r == reward_of(xt as int, a as int),
                outcomes@ == sols,
                sols == Outcome::solutions(*s1, *s2, xt as int, a as int),
                i <= outcomes.len(),
                oprobs.len() == i,
                forall|j: int|
                    0 <= j < i ==> #[trigger] oprobs[j] == self.record(
                        *s1,
                        *s2,
                        xt as int,
                        a as int,
                        sols[j],
                    ),
            decreases outcomes.len() - i,
        {
            let outcome = outcomes[i];
            proof {
                lemma_solutions_reconcile(*s1, *s2, xt as int, a as int, i as int);
            }
            let prob = self.outcome_prob(s1, a, &outcome);
            oprobs.push(OutcomeProb::new(s1, s2, xt, a, r, &outcome, prob));
            i = i + 1;
        }
        assert(oprobs@ =~= self.trace(*s1, *s2, xt as int, a as int));
        (r, oprobs)
    }

    /// The terms of the value of moving `a` cars when the day starts in `s1`,
    /// with the values that `pi` keeps for the next states.
    ///
    /// The value is the sum, over every next state and every number of cars
    /// rented, of the chance of both, times the reward plus the discounted
    /// value of the next state. A move that cannot be made has no terms, and
    /// so the value zero.
    pub fn calc_value_for_action(&self, s1: &State, a: i8, pi: &Policy) -> (plan: Vec<Transition>)
        requires
            self.wf(),
            pi.wf(),
            self.max1 <= pi.max1,
            self.max2 <= pi.max2,
            self.holds(*s1),
            s1.n1 + s1.n2 <= u8::MAX,
            self.feasible(*s1, a as int) ==> -pi.max_move <= a <= pi.max_move,
        ensures
            self.is_value_plan(plan@, *s1, a as int, *pi),
    {
        let mut plan: Vec<Transition> = Vec::new();
        if !self.is_feasible(s1, a) {
            return plan;
        }
        let max_rented: u32 = (s1.n1 + s1.n2) as u32;
        let ghost states = all_states(self.max1, self.max2);
        let mut walk = StateIterator::new(self.max1, self.max2);
        let mut next = walk.next();
        while next.is_some()
            invariant
                self.wf(),
                pi.wf(),
                self.max1 <= pi.max1,
                self.max2 <= pi.max2,
                self.holds(*s1),
                self.feasible(*s1, a as int),
                -pi.max_move <= a <= pi.max_move,
                max_rented == s1.n1 + s1.n2,
                max_rented <= u8::MAX,
                states == all_states(self.max1, self.max2),
                walk.max_n1() == self.max1,
                walk.max_n2() == self.max2,
                walk.position() <= state_count(self.max1, self.max2),
                next is Some ==> {
                    &&& walk.position() == plan.len() + 1
                    &&& next->Some_0 == states[plan.len() as int]
                    &&& self.holds(next->Some_0)
                },
                next is None ==> plan.len() == state_count(self.max1, self.max2),
                forall|k: int|
                    0 <= k < plan.len() ==> self.is_transition(
                        #[trigger] plan[k],
                        *s1,
                        states[k],
                        a as int,
                        *pi,
                    ),
            decreases state_count(self.max1, self.max2) + 1 - walk.position() + (if next is Some {
                1nat
            } else {
                0nat
            }),
        {
            let s2 = next.unwrap();
            let v_s2 = pi.get_value(s2.n1, s2.n2, a);
            let mut rewards: Vec<RewardCase> = Vec::new();
            let mut xt: u32 = 0;
            while xt <= max_rented
                invariant
                    self.wf(),
                    self.holds(s2),
                    self.holds(*s1),
                    self.feasible(*s1, a as int),
                    max_rented == s1.n1 + s1.n2,
                    max_rented <= u8::MAX,
                    xt <= max_rented + 1,
                    rewards.len() == xt,
                    forall|x: int|
                        0 <= x < xt ==> self.is_reward_case(
                            #[trigger] rewards[x],
                            *s1,
                            s2,
                            x,
                            a as int,
                        ),
                decreases max_rented + 1 - xt,
            {
                let (r, outcomes) = self.calc_reward_prob(s1, &s2, a, xt);
                rewards.push(RewardCase { r, outcomes });
                xt = xt + 1;
            }
            plan.push(Transition { s2, v_s2, rewards });
            next = walk.next();
        }
        plan
    }
}

/// The smaller of two small numbers.
fn smaller(a: u8, b: u8) -> (m: u8)
    ensures
        m == min_of(a as int, b as int),
{
    if a <= b {
        a
    } else {
        b
    }
}

} // verus!
