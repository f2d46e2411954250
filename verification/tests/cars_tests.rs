use rustcar2::cars::{ConfigError, OutcomeProb, RentalAgency, RewardError, Transition};
use rustcar2::mass::{JointMass, Mass, MassGrid};
use rustcar2::learn;
use rustcar2::policy::Policy;
use rustcar2::solver::{Outcome, State};
use statrs::distribution::{Discrete, DiscreteCDF, Poisson};

/// The four Poisson laws of an agency and its discount.
struct Rates {
    rent1: Poisson,
    return1: Poisson,
    rent2: Poisson,
    return2: Poisson,
    g: f64,
}

fn rates(rent1: f64, return1: f64, rent2: f64, return2: f64, g: f64) -> Rates {
    Rates {
        rent1: Poisson::new(rent1).unwrap(),
        return1: Poisson::new(return1).unwrap(),
        rent2: Poisson::new(rent2).unwrap(),
        return2: Poisson::new(return2).unwrap(),
        g,
    }
}

fn mass_value(m: Mass, dist: &Poisson) -> f64 {
    match m {
        Mass::Zero => 0.0,
        Mass::One => 1.0,
        Mass::Point(k) => dist.pmf(u64::from(k)),
        Mass::Tail(k) => 1.0 - dist.cdf(u64::from(k)),
    }
}

fn joint_value(p: &JointMass, rates: &Rates) -> f64 {
    mass_value(p.rent1, &rates.rent1)
        * mass_value(p.return1, &rates.return1)
        * mass_value(p.rent2, &rates.rent2)
        * mass_value(p.return2, &rates.return2)
}

fn plan_value(plan: &[Transition], rates: &Rates) -> f64 {
    let mut value = 0.0;
    for t in plan {
        let v_s2 = f64::from_bits(t.v_s2);
        for case in &t.rewards {
            let mut reward_prob = 0.0;
            for o in &case.outcomes {
                reward_prob += joint_value(&o.prob, rates);
            }
            value += reward_prob * (case.r as f64 + rates.g * v_s2);
        }
    }
    value
}

fn cells(table: &MassGrid) -> Vec<Vec<Mass>> {
    let (rows, cols) = table.dim();
    (0..rows).map(|n| (0..cols).map(|x| table.get(n, x).unwrap()).collect()).collect()
}

fn row_sums(table: &MassGrid, dist: &Poisson) -> Vec<f64> {
    cells(table).iter().map(|row| row.iter().map(|m| mass_value(*m, dist)).sum()).collect()
}

fn calc_value(agency: &RentalAgency, rates: &Rates, s1: &State) -> f64 {
    let pi = Policy::new(agency.max1, agency.max2, agency.max_move);
    let a = pi.get_action(s1.n1, s1.n2);
    plan_value(&agency.calc_value_for_action(s1, a, &pi), rates)
}

fn sweep_values(max: u8, max_move: u8, rates: &Rates) -> Policy {
    let agency = RentalAgency::new(max, max, max_move);
    let mut pi = Policy::new(agency.max1, agency.max2, agency.max_move);
    for (s1, a) in learn(&agency) {
        let val = plan_value(&agency.calc_value_for_action(&s1, a, &pi), rates);
        pi.set_value(s1.n1, s1.n2, a, val.to_bits());
    }
    pi
}

#[test]
fn rent_probs_small() {
    // Act
    let cprobs = RentalAgency::new(3, 2, 1);
    let r = rates(1.0, 1.0, 1.5, 0.5, 0.9);
    for px in row_sums(&cprobs.x1, &r.rent1) {
        assert!((px as f32 - 1.0).abs() <= f32::EPSILON);
    }
    for py in row_sums(&cprobs.y1, &r.return1) {
        assert!((py as f32 - 1.0).abs() <= f32::EPSILON);
    }
}

#[test]
fn rent_probs_big() {
    // Act
    let cprobs = RentalAgency::new(20, 20, 5);
    let r = rates(3.0, 3.0, 4.0, 2.0, 0.9);
    for px in row_sums(&cprobs.x1, &r.rent1) {
        assert!((px as f32 - 1.0).abs() <= f32::EPSILON);
    }
    for py in row_sums(&cprobs.y1, &r.return1) {
        assert!((py as f32 - 1.0).abs() <= f32::EPSILON);
    }
}

#[test]
fn second_lot_rows_sum_to_one() {
    let cprobs = RentalAgency::new(3, 2, 1);
    let r = rates(1.0, 1.0, 1.5, 0.5, 0.9);
    let sums = row_sums(&cprobs.x2, &r.rent2);
    assert_eq!(sums.len(), 3);
    for px in sums {
        assert!((px as f32 - 1.0).abs() <= f32::EPSILON);
    }
    let sums = row_sums(&cprobs.y2, &r.return2);
    assert_eq!(sums.len(), 3);
    for py in sums {
        assert!((py as f32 - 1.0).abs() <= f32::EPSILON);
    }
}

#[test]
fn full_lot_takes_back_nothing() {
    let cprobs = RentalAgency::new(3, 3, 1);
    assert_eq!(cells(&cprobs.y1)[3], vec![Mass::One, Mass::Zero, Mass::Zero, Mass::Zero]);
}

#[test]
fn rent_table_cells() {
    let table = cells(&RentalAgency::calc_rent_probs(3));
    let expected = vec![
        vec![Mass::One, Mass::Zero, Mass::Zero, Mass::Zero],
        vec![Mass::Point(0), Mass::Tail(0), Mass::Zero, Mass::Zero],
        vec![Mass::Point(0), Mass::Point(1), Mass::Tail(1), Mass::Zero],
        vec![Mass::Point(0), Mass::Point(1), Mass::Point(2), Mass::Tail(2)],
    ];
    assert_eq!(table, expected);
}

#[test]
fn return_table_cells() {
    let table = cells(&RentalAgency::calc_return_probs(3));
    let expected = vec![
        vec![Mass::Point(0), Mass::Point(1), Mass::Point(2), Mass::Tail(2)],
        vec![Mass::Point(0), Mass::Point(1), Mass::Tail(1), Mass::Zero],
        vec![Mass::Point(0), Mass::Tail(0), Mass::Zero, Mass::Zero],
        vec![Mass::One, Mass::Zero, Mass::Zero, Mass::Zero],
    ];
    assert_eq!(table, expected);
}

#[test]
fn tables_of_a_lot_without_places() {
    assert_eq!(cells(&RentalAgency::calc_rent_probs(0)), vec![vec![Mass::One]]);
    assert_eq!(cells(&RentalAgency::calc_return_probs(0)), vec![vec![Mass::One]]);
}

#[test]
fn tables_of_the_largest_lot() {
    let rent = RentalAgency::calc_rent_probs(255);
    let back = RentalAgency::calc_return_probs(255);
    assert_eq!(rent.dim(), (256, 256));
    assert_eq!(back.dim(), (256, 256));
    assert_eq!(rent.get(255, 255), Some(Mass::Tail(254)));
    assert_eq!(rent.get(255, 254), Some(Mass::Point(254)));
    assert_eq!(back.get(0, 255), Some(Mass::Tail(254)));
    assert_eq!(back.get(255, 0), Some(Mass::One));
}

#[test]
fn mass_grid_get_stays_within_the_grid() {
    let table = RentalAgency::calc_rent_probs(2);
    assert_eq!(table.dim(), (3, 3));
    assert_eq!(table.get(2, 2), Some(Mass::Tail(1)));
    assert_eq!(table.get(1, 0), Some(Mass::Point(0)));
    assert_eq!(table.get(3, 0), None);
    assert_eq!(table.get(0, 3), None);
    assert_eq!(table.get(usize::MAX, usize::MAX), None);
}

#[test]
fn rent_prob_cases() {
    assert_eq!(RentalAgency::rent_prob(4, 0, 3), Mass::Zero);
    assert_eq!(RentalAgency::rent_prob(0, 0, 3), Mass::One);
    assert_eq!(RentalAgency::rent_prob(0, 1, 3), Mass::Zero);
    assert_eq!(RentalAgency::rent_prob(3, 1, 3), Mass::Point(1));
    assert_eq!(RentalAgency::rent_prob(3, 3, 3), Mass::Tail(2));
    assert_eq!(RentalAgency::rent_prob(2, 3, 3), Mass::Zero);
}

#[test]
fn return_prob_cases() {
    assert_eq!(RentalAgency::return_prob(4, 0, 3), Mass::Zero);
    assert_eq!(RentalAgency::return_prob(2, 2, 3), Mass::Zero);
    assert_eq!(RentalAgency::return_prob(3, 0, 3), Mass::One);
    assert_eq!(RentalAgency::return_prob(3, 1, 3), Mass::Zero);
    assert_eq!(RentalAgency::return_prob(1, 1, 3), Mass::Point(1));
    assert_eq!(RentalAgency::return_prob(1, 2, 3), Mass::Tail(1));
    assert_eq!(RentalAgency::return_prob(0, 3, 3), Mass::Tail(2));
}

#[test]
fn agency_new_keeps_the_bounds() {
    let agency = RentalAgency::new(5, 4, 2);
    assert_eq!(agency.max1, 5);
    assert_eq!(agency.max2, 4);
    assert_eq!(agency.max_move, 2);
    assert_eq!(cells(&agency.x1), cells(&RentalAgency::calc_rent_probs(5)));
    assert_eq!(cells(&agency.y1), cells(&RentalAgency::calc_return_probs(5)));
    assert_eq!(cells(&agency.x2), cells(&RentalAgency::calc_rent_probs(4)));
    assert_eq!(cells(&agency.y2), cells(&RentalAgency::calc_return_probs(4)));
}

#[test]
fn agency_try_new_checks_the_move_bound() {
    assert!(RentalAgency::try_new(5, 4, 2).is_ok());
    assert!(RentalAgency::try_new(5, 5, 2).is_ok());
    assert!(RentalAgency::try_new(0, 0, 0).is_ok());
    assert_eq!(RentalAgency::try_new(5, 4, 3).err(), Some(ConfigError::MaxMoveTooLarge));
    assert_eq!(RentalAgency::try_new(4, 5, 3).err(), Some(ConfigError::MaxMoveTooLarge));
    assert_eq!(RentalAgency::try_new(0, 9, 1).err(), Some(ConfigError::MaxMoveTooLarge));
    let agency = RentalAgency::try_new(7, 6, 3).unwrap();
    assert_eq!((agency.max1, agency.max2, agency.max_move), (7, 6, 3));
    assert_eq!(cells(&agency.y2), cells(&RentalAgency::calc_return_probs(6)));
}

#[test]
fn test_reward_calculation_zero_rentals_and_no_action() {
    assert_eq!(RentalAgency::reward(0, 0), 0);
}

#[test]
fn test_reward_calculation_zero_rentals_and_action_from_1_to_2() {
    assert_eq!(RentalAgency::reward(0, 2), -4);
}

#[test]
fn test_reward_calculation_zero_rentals_and_action_from_2_to_1() {
    assert_eq!(RentalAgency::reward(0, -2), -4);
}

#[test]
fn test_reward_calculation_rentals_and_no_action() {
    assert_eq!(RentalAgency::reward(5, 0), 50);
}

#[test]
fn test_reward_calculation_rentals_and_action_from_2_to_1() {
    assert_eq!(RentalAgency::reward(5, -2), 46);
}

#[test]
fn test_reward_calculation_rentals_and_action_from_1_to_2() {
    assert_eq!(RentalAgency::reward(4, 3), 34);
}

#[test]
fn reward_at_the_limits() {
    assert_eq!(RentalAgency::reward(0, i8::MIN), -256);
    assert_eq!(RentalAgency::reward(0, i8::MAX), -254);
    assert_eq!(RentalAgency::reward(214748364, 0), 2147483640);
    assert_eq!(RentalAgency::reward(214748377, i8::MIN), 2147483514);
}

#[test]
fn test_cars_rented_calculation_negative_reward() {
    assert_eq!(RentalAgency::cars_rented(-2, 1), 0);
}

#[test]
fn test_cars_rented_calculation_one_car_rented() {
    assert_eq!(RentalAgency::cars_rented(8, -1), 1);
}

#[test]
fn test_cars_rented_calculation_no_action() {
    assert_eq!(RentalAgency::cars_rented(40, 0), 4);
}

#[test]
fn test_cars_rented_calculation_several_cars_rented_with_action() {
    assert_eq!(RentalAgency::cars_rented(20, 5), 3);
}

#[test]
fn cars_rented_undoes_reward() {
    for xt in 0u32..=255 {
        for a in -20i8..=20 {
            let r = RentalAgency::reward(xt, a);
            assert_eq!(RentalAgency::cars_rented(r as i16, a as i16), xt as u8);
            assert_eq!(RentalAgency::try_cars_rented(r as i16, a as i16), Ok(xt as u8));
        }
    }
}

#[test]
fn try_cars_rented_rejects_what_is_no_reward() {
    assert_eq!(RentalAgency::try_cars_rented(40, 0), Ok(4));
    assert_eq!(RentalAgency::try_cars_rented(2550, 0), Ok(255));
    assert_eq!(RentalAgency::try_cars_rented(41, 0), Err(RewardError::NotWhole));
    assert_eq!(RentalAgency::try_cars_rented(40, 1), Err(RewardError::NotWhole));
    assert_eq!(RentalAgency::try_cars_rented(-3, 1), Err(RewardError::NotWhole));
    assert_eq!(RentalAgency::try_cars_rented(-11, 0), Err(RewardError::NotWhole));
    assert_eq!(RentalAgency::try_cars_rented(2560, 0), Err(RewardError::OutOfRange));
    assert_eq!(RentalAgency::try_cars_rented(-20, 0), Err(RewardError::OutOfRange));
    assert_eq!(RentalAgency::try_cars_rented(-12, 1), Err(RewardError::OutOfRange));
    assert_eq!(RentalAgency::try_cars_rented(i16::MAX, i16::MAX), Err(RewardError::NotWhole));
    assert_eq!(RentalAgency::try_cars_rented(0, i16::MIN), Err(RewardError::NotWhole));
    assert_eq!(RentalAgency::try_cars_rented(4, i16::MIN), Err(RewardError::OutOfRange));
    assert_eq!(RentalAgency::try_cars_rented(-2, 1), Ok(0));
}

#[test]
fn outcome_prob_names_the_four_chances() {
    let agency = RentalAgency::new(3, 3, 1);
    let s = State { n1: 2, n2: 1 };
    let o = Outcome { x1: 1, x2: 2, y1: 1, y2: 2 };
    // After one car went to the second lot: one car here, two there.
    let p = agency.outcome_prob(&s, 1, &o);
    assert_eq!(
        p,
        JointMass {
            rent1: Mass::Tail(0),
            return1: Mass::Point(1),
            rent2: Mass::Tail(1),
            return2: Mass::Point(2),
        }
    );
    let o = Outcome { x1: 0, x2: 0, y1: 2, y2: 1 };
    let p = agency.outcome_prob(&s, 1, &o);
    assert_eq!(
        p,
        JointMass {
            rent1: Mass::Point(0),
            return1: Mass::Tail(1),
            rent2: Mass::Point(0),
            return2: Mass::Tail(0),
        }
    );
}

#[test]
fn outcome_prob_value() {
    let agency = RentalAgency::new(3, 3, 1);
    let r = rates(2.0, 1.0, 1.0, 2.0, 0.9);
    let s = State { n1: 1, n2: 1 };
    let o = Outcome { x1: 1, x2: 1, y1: 0, y2: 0 };
    let p = joint_value(&agency.outcome_prob(&s, 0, &o), &r);
    let expected = (1.0 - r.rent1.cdf(0)) * r.return1.pmf(0) * (1.0 - r.rent2.cdf(0)) * r.return2.pmf(0);
    assert_eq!(p, expected);
    assert!(p > 0.0 && p < 1.0);
}

#[test]
fn outcome_prob_new_copies_its_arguments() {
    let s1 = State { n1: 1, n2: 2 };
    let s2 = State { n1: 3, n2: 4 };
    let o = Outcome { x1: 5, x2: 6, y1: 7, y2: 8 };
    let prob = JointMass {
        rent1: Mass::Zero,
        return1: Mass::One,
        rent2: Mass::Point(3),
        return2: Mass::Tail(4),
    };
    let rec = OutcomeProb::new(&s1, &s2, 11, -2, 106, &o, prob);
    assert_eq!(
        rec,
        OutcomeProb {
            s1_n1: 1,
            s1_n2: 2,
            s2_n1: 3,
            s2_n2: 4,
            xt: 11,
            a: -2,
            r: 106,
            x1: 5,
            x2: 6,
            y1: 7,
            y2: 8,
            prob,
        }
    );
}

#[test]
fn test_scenario1() {
    // Arrange
    let cprobs = RentalAgency::new(3, 3, 1);
    let s1 = State { n1: 1, n2: 1 };
    let s2 = State { n1: 0, n2: 0 };
    // Act
    let (_r, trace) = cprobs.calc_reward_prob(&s1, &s2, 0, 2);
    for ocome in trace {
        println!("{:?}", ocome);
    }
}

#[test]
fn scenario1_trace() {
    let cprobs = RentalAgency::new(3, 3, 1);
    let s1 = State { n1: 1, n2: 1 };
    let s2 = State { n1: 0, n2: 0 };
    let (r, trace) = cprobs.calc_reward_prob(&s1, &s2, 0, 2);
    assert_eq!(r, 20);
    assert_eq!(
        trace,
        vec![OutcomeProb {
            s1_n1: 1,
            s1_n2: 1,
            s2_n1: 0,
            s2_n2: 0,
            xt: 2,
            a: 0,
            r: 20,
            x1: 1,
            x2: 1,
            y1: 0,
            y2: 0,
            prob: JointMass {
                rent1: Mass::Tail(0),
                return1: Mass::Point(0),
                rent2: Mass::Tail(0),
                return2: Mass::Point(0),
            },
        }]
    );
}

#[test]
fn calc_reward_prob_follows_solve() {
    let agency = RentalAgency::new(4, 4, 2);
    let s1 = State { n1: 2, n2: 2 };
    let s2 = State { n1: 2, n2: 2 };
    let (r, trace) = agency.calc_reward_prob(&s1, &s2, 1, 3);
    let outcomes = Outcome::solve(&s1, &s2, 3, 1);
    assert_eq!(r, 28);
    assert_eq!(trace.len(), 2);
    assert_eq!(trace.len(), outcomes.len());
    for (rec, o) in trace.iter().zip(outcomes.iter()) {
        assert_eq!((rec.x1, rec.x2, rec.y1, rec.y2), (o.x1 as i32, o.x2 as i32, o.y1 as i32, o.y2 as i32));
        assert_eq!((rec.s1_n1, rec.s1_n2, rec.s2_n1, rec.s2_n2), (2, 2, 2, 2));
        assert_eq!((rec.xt, rec.a, rec.r), (3, 1, 28));
        assert_eq!(rec.prob, agency.outcome_prob(&s1, 1, o));
    }
}

#[test]
fn calc_reward_prob_with_too_many_rentals() {
    let agency = RentalAgency::new(4, 4, 2);
    let s1 = State { n1: 2, n2: 2 };
    let s2 = State { n1: 2, n2: 2 };
    let (r, trace) = agency.calc_reward_prob(&s1, &s2, 0, 5);
    assert_eq!(r, 50);
    assert!(trace.is_empty());
    let (r, trace) = agency.calc_reward_prob(&s1, &s2, 0, 70000);
    assert_eq!(r, 700000);
    assert!(trace.is_empty());
}

#[test]
fn is_feasible_follows_the_lots() {
    let agency = RentalAgency::new(5, 4, 2);
    let s = State { n1: 1, n2: 3 };
    assert!(agency.is_feasible(&s, 0));
    assert!(agency.is_feasible(&s, 1));
    assert!(!agency.is_feasible(&s, 2));
    assert!(agency.is_feasible(&s, -1));
    assert!(agency.is_feasible(&s, -3));
    assert!(!agency.is_feasible(&s, -4));
    let s = State { n1: 5, n2: 4 };
    assert!(agency.is_feasible(&s, 0));
    assert!(!agency.is_feasible(&s, 1));
    assert!(!agency.is_feasible(&s, -1));
    assert!(!agency.is_feasible(&s, i8::MIN));
    assert!(!agency.is_feasible(&s, i8::MAX));
}

#[test]
fn move_range_is_what_is_feasible() {
    let agency = RentalAgency::new(5, 4, 2);
    assert_eq!(agency.move_range(&State { n1: 0, n2: 0 }), (0, 0));
    assert_eq!(agency.move_range(&State { n1: 5, n2: 4 }), (0, 0));
    assert_eq!(agency.move_range(&State { n1: 1, n2: 3 }), (-2, 1));
    assert_eq!(agency.move_range(&State { n1: 4, n2: 1 }), (-1, 2));
    assert_eq!(agency.move_range(&State { n1: 3, n2: 3 }), (-2, 1));
    for n1 in 0u8..=5 {
        for n2 in 0u8..=4 {
            let s = State { n1, n2 };
            let (lo, hi) = agency.move_range(&s);
            for a in -2i8..=2 {
                assert_eq!(lo <= a && a <= hi, agency.is_feasible(&s, a));
            }
        }
    }
}

#[test]
fn test_calc_value_no_cars() {
    // Arrange
    let cprobs = RentalAgency::new(5, 5, 2);
    let r = rates(2.0, 2.0, 2.0, 1.0, 0.9);
    let s1 = State { n1: 0, n2: 0 };
    // Act
    let cv = calc_value(&cprobs, &r, &s1);
    // Assert
    assert_eq!(cv, 0.0);
}

#[test]
fn test_calc_value_some_cars() {
    // Arrange
    let cprobs = RentalAgency::new(5, 5, 2);
    let r = rates(2.0, 1.0, 1.0, 2.0, 0.9);
    let s1 = State { n1: 1, n2: 1 };
    // Act
    let cv = calc_value(&cprobs, &r, &s1);
    // Assert
    assert!(cv > 0.0);
    assert!(cv < 20.0);
}

#[test]
fn value_of_a_move_that_cannot_be_made() {
    let agency = RentalAgency::new(5, 5, 2);
    let r = rates(2.0, 2.0, 2.0, 1.0, 0.9);
    let mut pi = Policy::new(5, 5, 2);
    pi.set_value(0, 0, 1, 3.5f64.to_bits());
    pi.set_value(2, 2, -1, 3.5f64.to_bits());
    let s1 = State { n1: 0, n2: 0 };
    for a in [-2i8, -1, 1, 2, i8::MIN, i8::MAX] {
        let plan = agency.calc_value_for_action(&s1, a, &pi);
        assert!(plan.is_empty());
        assert_eq!(plan_value(&plan, &r), 0.0);
    }
    let plan = agency.calc_value_for_action(&State { n1: 5, n2: 5 }, 1, &pi);
    assert!(plan.is_empty());
    let plan = agency.calc_value_for_action(&State { n1: 3, n2: 4 }, 2, &pi);
    assert!(plan.is_empty());
}

#[test]
fn value_plan_of_empty_lots() {
    let agency = RentalAgency::new(2, 2, 1);
    let pi = Policy::new(2, 2, 1);
    let s1 = State { n1: 0, n2: 0 };
    let plan = agency.calc_value_for_action(&s1, 0, &pi);
    assert_eq!(plan.len(), 9);
    for (k, t) in plan.iter().enumerate() {
        assert_eq!(t.s2, State { n1: (k / 3) as u8, n2: (k % 3) as u8 });
        assert_eq!(t.v_s2, 0);
        assert_eq!(t.rewards.len(), 1);
        assert_eq!(t.rewards[0].r, 0);
        assert_eq!(t.rewards[0].outcomes.len(), 1);
        let o = &t.rewards[0].outcomes[0];
        assert_eq!((o.x1, o.x2, o.y1, o.y2), (0, 0, t.s2.n1 as i32, t.s2.n2 as i32));
    }
}

#[test]
fn value_plan_reads_the_value_table() {
    let agency = RentalAgency::new(2, 2, 1);
    let mut pi = Policy::new(2, 2, 1);
    pi.set_value(1, 2, 1, 77);
    pi.set_value(1, 2, 0, 55);
    let s1 = State { n1: 1, n2: 1 };
    let plan = agency.calc_value_for_action(&s1, 1, &pi);
    assert_eq!(plan.len(), 9);
    for t in &plan {
        let expected = if t.s2 == (State { n1: 1, n2: 2 }) { 77 } else { 0 };
        assert_eq!(t.v_s2, expected);
        assert_eq!(t.rewards.len(), 3);
        for (xt, case) in t.rewards.iter().enumerate() {
            assert_eq!(case.r, 10 * xt as i32 - 2);
            let (r, trace) = agency.calc_reward_prob(&s1, &t.s2, 1, xt as u32);
            assert_eq!(case.r, r);
            assert_eq!(case.outcomes, trace);
        }
    }
}

#[test]
fn chances_of_all_next_states_sum_to_one() {
    let agency = RentalAgency::new(3, 3, 1);
    let r = rates(2.0, 1.0, 1.0, 2.0, 0.9);
    let pi = Policy::new(3, 3, 1);
    for (s1, a) in learn(&agency) {
        let plan = agency.calc_value_for_action(&s1, a, &pi);
        let mut total = 0.0;
        for t in &plan {
            for case in &t.rewards {
                for o in &case.outcomes {
                    total += joint_value(&o.prob, &r);
                }
            }
        }
        assert!((total - 1.0f64).abs() < 1e-12);
    }
}

#[test]
fn learn_actions() {
    // Arrange
    let r = rates(1.0, 1.0, 1.0, 1.0, 0.9);
    sweep_values(3, 1, &r);
}

#[test]
fn learn_lists_states_and_moves_in_order() {
    let agency = RentalAgency::new(2, 2, 1);
    let tasks = learn(&agency);
    let expected = vec![
        (State { n1: 0, n2: 0 }, 0),
        (State { n1: 0, n2: 1 }, -1),
        (State { n1: 0, n2: 1 }, 0),
        (State { n1: 0, n2: 2 }, -1),
        (State { n1: 0, n2: 2 }, 0),
        (State { n1: 1, n2: 0 }, 0),
        (State { n1: 1, n2: 0 }, 1),
        (State { n1: 1, n2: 1 }, -1),
        (State { n1: 1, n2: 1 }, 0),
        (State { n1: 1, n2: 1 }, 1),
        (State { n1: 1, n2: 2 }, -1),
        (State { n1: 1, n2: 2 }, 0),
        (State { n1: 2, n2: 0 }, 0),
        (State { n1: 2, n2: 0 }, 1),
        (State { n1: 2, n2: 1 }, 0),
        (State { n1: 2, n2: 1 }, 1),
        (State { n1: 2, n2: 2 }, 0),
    ];
    assert_eq!(tasks, expected);
}

#[test]
fn learn_without_moves() {
    let agency = RentalAgency::new(1, 1, 0);
    let tasks = learn(&agency);
    let expected = vec![
        (State { n1: 0, n2: 0 }, 0),
        (State { n1: 0, n2: 1 }, 0),
        (State { n1: 1, n2: 0 }, 0),
        (State { n1: 1, n2: 1 }, 0),
    ];
    assert_eq!(tasks, expected);
}

#[test]
fn learned_values_are_finite_and_not_negative() {
    let r = rates(1.0, 1.0, 1.0, 1.0, 0.9);
    let agency = RentalAgency::new(3, 3, 1);
    let pi = sweep_values(3, 1, &r);
    for (s1, a) in learn(&agency) {
        let v = f64::from_bits(pi.get_value(s1.n1, s1.n2, a));
        assert!(v.is_finite());
        if a == 0 && s1.n1 + s1.n2 > 0 {
            assert!(v > 0.0);
        }
    }
    assert_eq!(f64::from_bits(pi.get_value(0, 0, 0)), 0.0);
}

#[test]
fn learned_values_grow_with_the_discount() {
    let agency = RentalAgency::new(3, 3, 1);
    let low = sweep_values(3, 1, &rates(1.0, 1.0, 1.0, 1.0, 0.5));
    let high = sweep_values(3, 1, &rates(1.0, 1.0, 1.0, 1.0, 0.9));
    for (s1, a) in learn(&agency) {
        if a == 0 {
            let v_low = f64::from_bits(low.get_value(s1.n1, s1.n2, a));
            let v_high = f64::from_bits(high.get_value(s1.n1, s1.n2, a));
            assert!(v_low <= v_high);
        }
    }
}
