//! Euclidean patterns as used by fixed patterns and tidal cycles: onsets first in the
//! argument list, rotation to the left for positive offsets.

use vstd::prelude::*;

use crate::rhythm::euclidean::{
    bjorklund, combine_groups, count_true, filled, flatten_groups, lemma_bjorklund_length,
    new_unit_groups, rotate_left, rotate_right, rotated_left,
};

verus! {

/// The Euclidean pattern with `pulses` onsets over `steps` steps: no onsets when `pulses` is
/// 0, all steps are onsets when `pulses >= steps`, else the Bjorklund pattern, rotated to the left by a positive
/// `offset` and to the right by a negative one, modulo the pattern length.
pub open spec fn spec_euclidean(pulses: u32, steps: u32, offset: i32) -> Seq<bool> {
    if pulses == 0 {
        Seq::new(steps as nat, |i: int| false)
    } else if pulses < steps {
        let r = bjorklund(pulses as nat, steps as nat);
        if offset > 0 {
            rotate_left(r, (offset as int) % (steps as int))
        } else if offset < 0 {
            rotate_right(r, (-(offset as int)) % (steps as int))
        } else {
            r
        }
    } else {
        Seq::new(steps as nat, |i: int| true)
    }
}

/// Generates a euclidean rhythm pattern with the given pulse, step count and rotation
/// offset: see `spec_euclidean`.
pub fn euclidean(pulses: u32, steps: u32, offset: i32) -> (r: Vec<bool>)
    requires
        !(offset == i32::MIN && 0 < pulses < steps),
    ensures
        r@ == spec_euclidean(pulses, steps, offset),
{
    if pulses == 0 {
        filled(steps, false)
    } else if pulses < steps {
        let front = new_unit_groups(pulses, true);
        let last = new_unit_groups(steps - pulses, false);
        let rhythm = flatten_groups(combine_groups(front, last));
        proof {
            lemma_bjorklund_length(pulses as nat, steps as nat);
        }
        if offset > 0 {
            rotated_left(&rhythm, ((offset as u32) % steps) as usize)
        } else if offset < 0 {
            let n = (((-offset) as u32) % steps) as usize;
            let r = rotated_left(&rhythm, rhythm.len() - n);
            assert(r@ =~= rotate_right(rhythm@, n as int));
            r
        } else {
            rhythm
        }
    } else {
        filled(steps, true)
    }
}

proof fn lemma_count_rotate_right(s: Seq<bool>, n: int)
    requires
        0 <= n <= s.len(),
    ensures
        count_true(rotate_right(s, n)) == count_true(s),
        rotate_right(s, n).len() == s.len(),
{
    crate::rhythm::euclidean::lemma_count_true_add(
        s.subrange(s.len() - n, s.len() as int),
        s.subrange(0, s.len() - n),
    );
    crate::rhythm::euclidean::lemma_count_true_add(
        s.subrange(0, s.len() - n),
        s.subrange(s.len() - n, s.len() as int),
    );
    assert(s.subrange(0, s.len() - n) + s.subrange(s.len() - n, s.len() as int) =~= s);
}

proof fn lemma_count_rotate_left(s: Seq<bool>, n: int)
    requires
        0 <= n <= s.len(),
    ensures
        count_true(rotate_left(s, n)) == count_true(s),
        rotate_left(s, n).len() == s.len(),
{
    crate::rhythm::euclidean::lemma_count_true_add(
        s.subrange(n, s.len() as int),
        s.subrange(0, n),
    );
    crate::rhythm::euclidean::lemma_count_true_add(
        s.subrange(0, n),
        s.subrange(n, s.len() as int),
    );
    assert(s.subrange(0, n) + s.subrange(n, s.len() as int) =~= s);
}

/// A Euclidean pattern has `steps` steps, and `min(pulses, steps)` of them are onsets.
pub proof fn lemma_euclidean_counts(pulses: u32, steps: u32, offset: i32)
    ensures
        spec_euclidean(pulses, steps, offset).len() == steps,
        count_true(spec_euclidean(pulses, steps, offset)) == (if pulses < steps {
            pulses
        } else {
            steps
        }),
{
    if pulses == 0 {
        lemma_count_none(steps as nat);
    } else if pulses < steps {
        let r = bjorklund(pulses as nat, steps as nat);
        lemma_bjorklund_length(pulses as nat, steps as nat);
        if offset > 0 {
            lemma_count_rotate_left(r, (offset as int) % (steps as int));
        } else if offset < 0 {
            lemma_count_rotate_right(r, (-(offset as int)) % (steps as int));
        }
    } else {
        lemma_count_all(steps as nat);
    }
}

proof fn lemma_count_none(n: nat)
    ensures
        count_true(Seq::new(n, |i: int| false)) == 0,
    decreases n,
{
    if n > 0 {
        assert(Seq::new(n, |i: int| false).drop_first() =~= Seq::new((n - 1) as nat, |i: int| false));
        lemma_count_none((n - 1) as nat);
    }
}

proof fn lemma_count_all(n: nat)
    ensures
        count_true(Seq::new(n, |i: int| true)) == n,
    decreases n,
{
    if n > 0 {
        assert(Seq::new(n, |i: int| true).drop_first() =~= Seq::new((n - 1) as nat, |i: int| true));
        lemma_count_all((n - 1) as nat);
    }
}

/// A Euclidean pattern with fewer onsets than steps is the Bjorklund pattern rotated to the
/// left by the offset modulo the number of steps (a negative offset rotates to the right).
pub proof fn lemma_euclidean_rotation(pulses: u32, steps: u32, offset: i32)
    requires
        0 < pulses < steps,
    ensures
        spec_euclidean(pulses, steps, offset) == rotate_left(
            bjorklund(pulses as nat, steps as nat),
            (offset as int) % (steps as int),
        ),
{
    let r = bjorklund(pulses as nat, steps as nat);
    lemma_bjorklund_length(pulses as nat, steps as nat);
    let p = steps as int;
    if offset < 0 {
        let o = offset as int;
        let n = (-o) % p;
        let q = (-o) / p;
        vstd::arithmetic::div_mod::lemma_fundamental_div_mod(-o, p);
        if n == 0 {
            assert(o == (-q) * p + 0) by (nonlinear_arith)
                requires
                    -o == p * q + n,
                    n == 0,
            ;
            vstd::arithmetic::div_mod::lemma_fundamental_div_mod_converse(o, p, -q, 0);
            assert(rotate_right(r, n) =~= rotate_left(r, 0));
        } else {
            assert(o == (-q - 1) * p + (p - n)) by (nonlinear_arith)
                requires
                    -o == p * q + n,
            ;
            vstd::arithmetic::div_mod::lemma_fundamental_div_mod_converse(o, p, -q - 1, p - n);
            assert(rotate_right(r, n) =~= rotate_left(r, p - n));
        }
    } else if offset == 0 {
        assert(rotate_left(r, 0) =~= r);
    }
}

/// Shifting the offset by one full pattern length gives the same pattern.
pub proof fn lemma_euclidean_wraps(pulses: u32, steps: u32, offset: i32)
    requires
        steps > 0,
        i32::MIN <= offset + steps <= i32::MAX,
    ensures
        spec_euclidean(pulses, steps, offset) == spec_euclidean(
            pulses,
            steps,
            (offset + steps) as i32,
        ),
{
    if 0 < pulses < steps {
        lemma_euclidean_rotation(pulses, steps, offset);
        lemma_euclidean_rotation(pulses, steps, (offset + steps) as i32);
        vstd::arithmetic::div_mod::lemma_mod_add_multiples_vanish(offset as int, steps as int);
    }
}

} // verus!
