use travelling_salesman::matrix::DistanceMatrix;
use travelling_salesman::schedule::accept;
use travelling_salesman::schedule::cool;
use travelling_salesman::schedule::exp_neg;
use travelling_salesman::schedule::initial_temperature;
use travelling_salesman::schedule::INV_E;
use travelling_salesman::schedule::PROB_ONE;

#[test]
fn exp_of_zero_is_one() {
    assert_eq!(exp_neg(0), PROB_ONE);
}

#[test]
fn exp_of_one_unit_is_inverse_e() {
    assert_eq!(exp_neg(PROB_ONE), INV_E);
}

#[test]
fn exp_of_large_argument_is_zero() {
    assert_eq!(exp_neg(32 * PROB_ONE), 0);
    assert_eq!(exp_neg(u64::MAX), 0);
}

#[test]
fn exp_stays_within_the_unit_interval() {
    for x in 0..4000u64 {
        let v = exp_neg(x * 613);
        assert!(v <= PROB_ONE);
    }
    assert!(exp_neg(PROB_ONE / 2) < PROB_ONE);
    assert!(exp_neg(PROB_ONE / 2) > INV_E);
}

#[test]
fn improving_candidates_are_always_accepted() {
    assert!(accept(10, 5, 0, PROB_ONE - 1));
    assert!(accept(10, 10, 0, PROB_ONE - 1));
    assert!(accept(10, 9, 123, 0));
}

#[test]
fn worsening_candidates_are_frozen_at_zero_temperature() {
    assert!(!accept(10, 11, 0, 0));
    assert!(!accept(0, 1, 0, 0));
}

#[test]
fn slightly_worse_candidate_is_accepted_on_a_low_draw() {
    // delta = 1, temperature = 1000: the threshold is close to PROB_ONE.
    assert!(accept(1000, 1001, 1000, 0));
}

#[test]
fn much_worse_candidate_is_rejected_on_a_high_draw() {
    // delta far above the temperature: the threshold is zero.
    assert!(!accept(0, 1_000_000, 1, PROB_ONE - 1));
}

#[test]
fn cooling_is_geometric_and_never_warms() {
    assert_eq!(cool(1000), 999);
    assert_eq!(cool(0), 0);
    assert_eq!(cool(1), 0);
    let mut t: u64 = 5000;
    for _ in 0..100 {
        let next = cool(t);
        assert!(next <= t);
        t = next;
    }
}

#[test]
fn initial_temperature_is_the_mean_entry() {
    let m = DistanceMatrix::from_rows(vec![vec![0, 4], vec![4, 0]]).unwrap();
    assert_eq!(initial_temperature(&m), 2);
    let empty = DistanceMatrix::from_rows(Vec::new()).unwrap();
    assert_eq!(initial_temperature(&empty), 0);
}
