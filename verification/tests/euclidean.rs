use pattrns::pattern::euclidean::euclidean as pattern_euclidean;
use pattrns::rhythm::euclidean::euclidean;

#[test]
fn patterns() {
    // patterns from Toussaint
    let check_pattern = |(steps, pulses), result: &str| {
        let result = result.split(' ').map(|c| c == "x").collect::<Vec<bool>>();
        assert_eq!(euclidean(steps, pulses, 0), result);
    };
    check_pattern((1, 2), "x ~");
    check_pattern((1, 3), "x ~ ~");
    check_pattern((1, 4), "x ~ ~ ~");
    check_pattern((4, 12), "x ~ ~ x ~ ~ x ~ ~ x ~ ~");
    check_pattern((2, 5), "x ~ x ~ ~");
    check_pattern((3, 4), "x x x ~");
    check_pattern((3, 5), "x ~ x ~ x");
    check_pattern((3, 7), "x ~ x ~ x ~ ~");
    check_pattern((3, 8), "x ~ ~ x ~ ~ x ~");
    check_pattern((4, 7), "x ~ x ~ x ~ x");
    check_pattern((4, 9), "x ~ x ~ x ~ x ~ ~");
    check_pattern((4, 11), "x ~ ~ x ~ ~ x ~ ~ x ~");
    check_pattern((5, 6), "x x x x x ~");
    check_pattern((5, 7), "x ~ x x ~ x x");
    check_pattern((5, 8), "x ~ x x ~ x x ~");
    check_pattern((5, 9), "x ~ x ~ x ~ x ~ x");
    check_pattern((5, 11), "x ~ x ~ x ~ x ~ x ~ ~");
    check_pattern((5, 12), "x ~ ~ x ~ x ~ ~ x ~ x ~");
    check_pattern((5, 16), "x ~ ~ x ~ ~ x ~ ~ x ~ ~ x ~ ~ ~");
    check_pattern((7, 8), "x x x x x x x ~");
    check_pattern((7, 12), "x ~ x x ~ x ~ x x ~ x ~");
    check_pattern((7, 16), "x ~ ~ x ~ x ~ x ~ ~ x ~ x ~ x ~");
    check_pattern((9, 16), "x ~ x x ~ x ~ x ~ x x ~ x ~ x ~");
    check_pattern((11, 24), "x ~ ~ x ~ x ~ x ~ x ~ x ~ ~ x ~ x ~ x ~ x ~ x ~");
    check_pattern((13, 24), "x ~ x x ~ x ~ x ~ x ~ x ~ x x ~ x ~ x ~ x ~ x ~");
    // steps > pulses
    assert_eq!(
        euclidean(9, 8, 0),
        [true, true, true, true, true, true, true, true]
    );
    // empty steps
    assert_eq!(euclidean(0, 8, 0), vec![false; 8]);
    // empty pulses
    assert_eq!(euclidean(8, 0, 0), Vec::<bool>::new());
    // rotate
    assert_eq!(
        euclidean(3, 8, 3),
        [true, false, false, true, false, true, false, false]
    );
    assert_eq!(
        euclidean(3, 8, -3),
        [false, true, false, true, false, false, true, false]
    );
    // rotate and wrap
    assert_eq!(euclidean(3, 8, 5), euclidean(3, 8, 5 + 8));
    assert_eq!(euclidean(3, 8, -3), euclidean(3, 8, -3 - 8));
}

#[test]
fn rhythm_euclidean_counts_and_first_onset() {
    for pulses in 1..20u32 {
        for steps in 0..=pulses {
            let r = euclidean(steps, pulses, 0);
            assert_eq!(r.len(), pulses as usize);
            assert_eq!(r.iter().filter(|b| **b).count(), steps as usize);
            if steps > 0 {
                assert!(r[0]);
            }
        }
    }
}

#[test]
fn rhythm_euclidean_rotation_is_a_left_rotation() {
    let base = euclidean(5, 12, 0);
    for offset in -30..30i32 {
        let mut expected = base.clone();
        expected.rotate_left(offset.rem_euclid(12) as usize);
        assert_eq!(euclidean(5, 12, offset), expected, "{}", offset);
    }
}

#[test]
fn pattern_euclidean_rotates_left() {
    assert_eq!(
        pattern_euclidean(3, 8, 0),
        vec![true, false, false, true, false, false, true, false]
    );
    assert_eq!(
        pattern_euclidean(3, 8, 1),
        vec![false, false, true, false, false, true, false, true]
    );
    assert_eq!(
        pattern_euclidean(3, 8, -1),
        vec![false, true, false, false, true, false, false, true]
    );
    // as the mini-notation "c(3,8,9)" uses it: onsets at steps 2, 5 and 7
    assert_eq!(
        pattern_euclidean(3, 8, 9),
        vec![false, false, true, false, false, true, false, true]
    );
    assert_eq!(pattern_euclidean(0, 1, 0), vec![false]);
    assert_eq!(pattern_euclidean(0, 8, 0), vec![false; 8]);
    assert_eq!(pattern_euclidean(0, 8, -3), vec![false; 8]);
    assert_eq!(pattern_euclidean(5, 4, 0), vec![true; 4]);
    for pulses in 1..12u32 {
        for steps in 1..12u32 {
            let r = pattern_euclidean(pulses, steps, 0);
            assert_eq!(r.len(), steps as usize);
            let expected_count = if pulses < steps { pulses } else { steps };
            assert_eq!(r.iter().filter(|b| **b).count(), expected_count as usize);
        }
    }
}

#[test]
fn pattern_euclidean_rotation_and_wrap() {
    let base = pattern_euclidean(5, 13, 0);
    for offset in -30..30i32 {
        let mut expected = base.clone();
        expected.rotate_left(offset.rem_euclid(13) as usize);
        assert_eq!(pattern_euclidean(5, 13, offset), expected, "{}", offset);
        assert_eq!(pattern_euclidean(5, 13, offset), pattern_euclidean(5, 13, offset + 13));
    }
}
