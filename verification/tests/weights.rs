//! Meters agree with those of a runtime.

use coretime_market::weight::{Weight, WeightMeter};

#[test]
fn meters_agree() {
    let cases = [(0, 0), (1, 0), (0, 1), (5, 7), (10, 10), (11, 3), (3, 11), (u64::MAX, u64::MAX)];
    for (a, b) in cases {
        let mut meter = WeightMeter::with_limit(Weight { ref_time: 10, proof_size: 10 });
        let mut other =
            sp_weights::WeightMeter::with_limit(sp_weights::Weight::from_parts(10, 10));
        for _ in 0..3 {
            let w = Weight { ref_time: a, proof_size: b };
            let v = sp_weights::Weight::from_parts(a, b);
            assert_eq!(meter.can_consume(w), other.can_consume(v));
            if meter.can_consume(w) {
                meter.consume(w);
                other.consume(v);
            }
            assert_eq!(meter.consumed.ref_time, other.consumed().ref_time());
            assert_eq!(meter.consumed.proof_size, other.consumed().proof_size());
        }
    }
}

#[test]
fn new_meters_are_unlimited() {
    let mut meter = WeightMeter::new();
    let all = Weight { ref_time: u64::MAX, proof_size: u64::MAX };
    assert!(meter.can_consume(all));
    meter.consume(all);
    assert!(!meter.can_consume(Weight { ref_time: 1, proof_size: 0 }));
    assert!(meter.can_consume(Weight::zero()));
}
