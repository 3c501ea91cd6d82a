//! Euclidean rhythms, built with Bjorklund's group combining algorithm.

use vstd::prelude::*;

verus! {

/// The group sequences that a vector of vectors holds.
pub open spec fn groups_view(v: Seq<Vec<bool>>) -> Seq<Seq<bool>> {
    v.map_values(|g: Vec<bool>| g@)
}

/// One round of Bjorklund's algorithm, repeated until fewer than two remainder groups are
/// left: the last front group and the last remainder group are joined, pair by pair, into
/// the new front groups; the unpaired groups of both lists become the new remainder.
pub open spec fn combine(front: Seq<Seq<bool>>, last: Seq<Seq<bool>>) -> Seq<Seq<bool>>
    decreases front.len() + last.len(),
{
    if last.len() < 2 || front.len() == 0 {
        front + last
    } else {
        let k = if front.len() < last.len() {
            front.len()
        } else {
            last.len()
        };
        let paired = Seq::new(
            k as nat,
            |i: int| front[front.len() - 1 - i] + last[last.len() - 1 - i],
        );
        let rest = front.subrange(0, front.len() - k) + last.subrange(0, last.len() - k);
        combine(paired, rest)
    }
}

/// `n` groups that each hold the single value `b`.
pub open spec fn unit_groups(n: nat, b: bool) -> Seq<Seq<bool>> {
    Seq::new(n, |i: int| seq![b])
}

/// The Bjorklund pattern of `hits` onsets spread over `len` steps, before any rotation.
pub open spec fn bjorklund(hits: nat, len: nat) -> Seq<bool> {
    combine(unit_groups(hits, true), unit_groups((len - hits) as nat, false)).flatten()
}

/// `s` rotated to the left by `n` places, `0 <= n <= s.len()`.
pub open spec fn rotate_left(s: Seq<bool>, n: int) -> Seq<bool> {
    s.subrange(n, s.len() as int) + s.subrange(0, n)
}

/// `s` rotated to the right by `n` places, `0 <= n <= s.len()`.
pub open spec fn rotate_right(s: Seq<bool>, n: int) -> Seq<bool> {
    s.subrange(s.len() - n, s.len() as int) + s.subrange(0, s.len() - n)
}

/// The Euclidean rhythm with `steps` onsets in a pattern of `pulses` steps: none when
/// `steps` is 0, all when `steps >= pulses`, else the Bjorklund pattern, rotated to the left
/// by a positive `offset` and to the right by a negative one, modulo the pattern length.
pub open spec fn spec_euclidean(steps: u32, pulses: u32, offset: i32) -> Seq<bool> {
    if steps == 0 {
        Seq::new(pulses as nat, |i: int| false)
    } else if steps >= pulses {
        Seq::new(pulses as nat, |i: int| true)
    } else {
        let r = bjorklund(steps as nat, pulses as nat);
        if offset > 0 {
            rotate_left(r, (offset as int) % (pulses as int))
        } else if offset < 0 {
            rotate_right(r, (-(offset as int)) % (pulses as int))
        } else {
            r
        }
    }
}

/// Repeats the Bjorklund combining round on vectors of groups, see `combine`.
pub(crate) fn combine_groups(front: Vec<Vec<bool>>, last: Vec<Vec<bool>>) -> (r: Vec<Vec<bool>>)
    requires
        front@.len() >= 1 || last@.len() < 2,
    ensures
        groups_view(r@) == combine(groups_view(front@), groups_view(last@)),
    decreases front@.len() + last@.len(),
{
    let mut front = front;
    let mut last = last;
    let ghost f0 = groups_view(front@);
    let ghost l0 = groups_view(last@);
    if last.len() < 2 {
        front.append(&mut last);
        proof {
            assert(groups_view(front@) =~= f0 + l0);
        }
        return front;
    }
    let f = front.len();
    let l = last.len();
    let ghost k: int = if f < l {
        f as int
    } else {
        l as int
    };
    let mut new_front: Vec<Vec<bool>> = Vec::new();
    let mut i: usize = 0;
    while front.len() > 0 && last.len() > 0
        invariant
            f == f0.len(),
            l == l0.len(),
            k == (if f < l {
                f as int
            } else {
                l as int
            }),
            0 <= i <= k,
            front@.len() == f - i,
            last@.len() == l - i,
            groups_view(front@) == f0.subrange(0, f - i),
            groups_view(last@) == l0.subrange(0, l - i),
            new_front@.len() == i,
            forall|j: int| 0 <= j < i ==> #[trigger] new_front@[j]@ == f0[f - 1 - j] + l0[l - 1 - j],
        decreases front@.len(),
    {
        let ghost fv = front@;
        let ghost lv = last@;
        proof {
            assert(groups_view(fv)[f - 1 - i] == fv[f - 1 - i]@);
            assert(groups_view(lv)[l - 1 - i] == lv[l - 1 - i]@);
        }
        let mut a = front.pop().unwrap();
        let mut b = last.pop().unwrap();
        a.append(&mut b);
        new_front.push(a);
        i = i + 1;
        proof {
            assert(groups_view(front@) =~= f0.subrange(0, f - i));
            assert(groups_view(last@) =~= l0.subrange(0, l - i));
        }
    }
    front.append(&mut last);
    proof {
        let paired = Seq::new(k as nat, |j: int| f0[f - 1 - j] + l0[l - 1 - j]);
        assert(groups_view(new_front@) =~= paired);
        assert(groups_view(front@) =~= f0.subrange(0, f - k) + l0.subrange(0, l - k));
    }
    combine_groups(new_front, front)
}

/// `n` groups that each hold the single value `b`.
pub(crate) fn new_unit_groups(n: u32, b: bool) -> (r: Vec<Vec<bool>>)
    ensures
        r@.len() == n,
        groups_view(r@) == unit_groups(n as nat, b),
{
    let mut r: Vec<Vec<bool>> = Vec::new();
    let mut i: u32 = 0;
    while i < n
        invariant
            i <= n,
            r@.len() == i,
            forall|j: int| 0 <= j < i ==> #[trigger] r@[j]@ == seq![b],
        decreases n - i,
    {
        let mut g: Vec<bool> = Vec::new();
        g.push(b);
        r.push(g);
        i = i + 1;
    }
    assert(groups_view(r@) =~= unit_groups(n as nat, b));
    r
}

/// The values of a group vector, concatenated.
pub(crate) fn flatten_groups(gs: Vec<Vec<bool>>) -> (r: Vec<bool>)
    ensures
        r@ == groups_view(gs@).flatten(),
{
    let mut r: Vec<bool> = Vec::new();
    let mut i: usize = 0;
    while i < gs.len()
        invariant
            i <= gs@.len(),
            r@ == groups_view(gs@).subrange(0, i as int).flatten(),
        decreases gs@.len() - i,
    {
        let g = &gs[i];
        let mut j: usize = 0;
        let ghost r0 = r@;
        while j < g.len()
            invariant
                j <= g@.len(),
                r@ == r0 + g@.subrange(0, j as int),
            decreases g@.len() - j,
        {
            r.push(g[j]);
            j = j + 1;
            proof {
                assert(r@ =~= r0 + g@.subrange(0, j as int));
            }
        }
        proof {
            let gv = groups_view(gs@);
            assert(gv.subrange(0, i + 1) =~= gv.subrange(0, i as int).push(gv[i as int]));
            gv.subrange(0, i as int).lemma_flatten_push(gv[i as int]);
            assert(g@.subrange(0, j as int) =~= g@);
        }
        i = i + 1;
    }
    assert(groups_view(gs@).subrange(0, gs@.len() as int) =~= groups_view(gs@));
    r
}

/// `v` rotated to the left by `n` places.
pub(crate) fn rotated_left(v: &Vec<bool>, n: usize) -> (r: Vec<bool>)
    requires
        n <= v@.len(),
    ensures
        r@ == rotate_left(v@, n as int),
{
    let mut r: Vec<bool> = Vec::new();
    let mut i: usize = n;
    while i < v.len()
        invariant
            n <= i <= v@.len(),
            r@ == v@.subrange(n as int, i as int),
        decreases v@.len() - i,
    {
        r.push(v[i]);
        i = i + 1;
        proof {
            assert(r@ =~= v@.subrange(n as int, i as int));
        }
    }
    let mut j: usize = 0;
    while j < n
        invariant
            j <= n <= v@.len(),
            r@ == v@.subrange(n as int, v@.len() as int) + v@.subrange(0, j as int),
        decreases n - j,
    {
        r.push(v[j]);
        j = j + 1;
        proof {
            assert(r@ =~= v@.subrange(n as int, v@.len() as int) + v@.subrange(0, j as int));
        }
    }
    r
}

/// `n` copies of `b`.
pub(crate) fn filled(n: u32, b: bool) -> (r: Vec<bool>)
    ensures
        r@ == Seq::new(n as nat, |i: int| b),
{
    let mut r: Vec<bool> = Vec::new();
    let mut i: u32 = 0;
    while i < n
        invariant
            i <= n,
            r@ == Seq::new(i as nat, |k: int| b),
        decreases n - i,
    {
        r.push(b);
        i = i + 1;
        proof {
            assert(r@ =~= Seq::new(i as nat, |k: int| b));
        }
    }
    r
}

/// Generates a Euclidean rhythm with the given number of onsets (`steps`) spread over a
/// pattern of `pulses` steps, rotated by `offset`: see `spec_euclidean`.
pub fn euclidean(steps: u32, pulses: u32, offset: i32) -> (r: Vec<bool>)
    requires
        !(offset == i32::MIN && 0 < steps < pulses),
    ensures
        r@ == spec_euclidean(steps, pulses, offset),
{
    if steps == 0 {
        filled(pulses, false)
    } else if steps >= pulses {
        filled(pulses, true)
    } else {
        let front = new_unit_groups(steps, true);
        let last = new_unit_groups(pulses - steps, false);
        let rhythm = flatten_groups(combine_groups(front, last));
        proof {
            lemma_bjorklund_length(steps as nat, pulses as nat);
        }
        if offset > 0 {
            rotated_left(&rhythm, ((offset as u32) % pulses) as usize)
        } else if offset < 0 {
            let n = (((-offset) as u32) % pulses) as usize;
            let r = rotated_left(&rhythm, rhythm.len() - n);
            assert(r@ =~= rotate_right(rhythm@, n as int));
            r
        } else {
            rhythm
        }
    }
}

// ---------------------------------------------------------------------------------------------
// Laws

/// All groups of `gs` are equal.
pub open spec fn uniform(gs: Seq<Seq<bool>>) -> bool {
    forall|i: int, j: int| 0 <= i < gs.len() && 0 <= j < gs.len() ==> gs[i] == gs[j]
}

/// Number of `true` values in `s`.
pub open spec fn count_true(s: Seq<bool>) -> nat
    decreases s.len(),
{
    if s.len() == 0 {
        0
    } else {
        (if s[0] {
            1nat
        } else {
            0nat
        }) + count_true(s.drop_first())
    }
}

/// The onsets of two joined patterns are those of the first and the second.
pub proof fn lemma_count_true_add(a: Seq<bool>, b: Seq<bool>)
    ensures
        count_true(a + b) == count_true(a) + count_true(b),
    decreases a.len(),
{
    if a.len() > 0 {
        assert((a + b).drop_first() =~= a.drop_first() + b);
        lemma_count_true_add(a.drop_first(), b);
    } else {
        assert(a + b =~= b);
    }
}

proof fn lemma_flatten_add(a: Seq<Seq<bool>>, b: Seq<Seq<bool>>)
    ensures
        (a + b).flatten() == a.flatten() + b.flatten(),
    decreases a.len(),
{
    if a.len() == 0 {
        assert(a + b =~= b);
        assert(a.flatten() + b.flatten() =~= b.flatten());
    } else {
        assert((a + b).drop_first() =~= a.drop_first() + b);
        lemma_flatten_add(a.drop_first(), b);
        assert((a + b).flatten() =~= a.flatten() + b.flatten());
    }
}

/// Count and length of the values of `n` equal groups.
proof fn lemma_uniform_flatten(gs: Seq<Seq<bool>>)
    requires
        uniform(gs),
        gs.len() > 0,
    ensures
        count_true(gs.flatten()) == gs.len() * count_true(gs[0]),
        gs.flatten().len() == gs.len() * gs[0].len(),
    decreases gs.len(),
{
    let g = gs[0];
    if gs.len() == 1 {
        assert(gs.drop_first().flatten() =~= Seq::<bool>::empty());
        assert(gs.flatten() =~= g);
    } else {
        let t = gs.drop_first();
        assert(t[0] == gs[1]);
        lemma_uniform_flatten(t);
        lemma_count_true_add(g, t.flatten());
        assert(count_true(gs.flatten()) == count_true(g) + t.len() * count_true(g));
        assert(t.len() * count_true(g) + count_true(g) == gs.len() * count_true(g))
            by (nonlinear_arith)
            requires
                t.len() + 1 == gs.len(),
        ;
        assert(t.len() * g.len() + g.len() == gs.len() * g.len()) by (nonlinear_arith)
            requires
                t.len() + 1 == gs.len(),
        ;
    }
}

/// Combining equal front groups with equal remainder groups keeps all values: the combined
/// pattern has the length and the number of onsets of both lists together, and when the
/// front groups start with an onset, so does the combined pattern.
proof fn lemma_combine_keeps_values(front: Seq<Seq<bool>>, last: Seq<Seq<bool>>)
    requires
        front.len() >= 1,
        uniform(front),
        uniform(last),
    ensures
        count_true(combine(front, last).flatten()) == count_true(front.flatten()) + count_true(
            last.flatten(),
        ),
        combine(front, last).flatten().len() == front.flatten().len() + last.flatten().len(),
        front[0].len() > 0 && front[0][0] ==> combine(front, last).flatten().len() > 0
            && combine(front, last).flatten()[0],
    decreases front.len() + last.len(),
{
    let f = front.len();
    let l = last.len();
    if l < 2 {
        lemma_flatten_add(front, last);
        lemma_count_true_add(front.flatten(), last.flatten());
        lemma_uniform_flatten(front);
        if front[0].len() > 0 {
            assert(front.flatten() =~= front[0] + front.drop_first().flatten());
            assert((front.flatten() + last.flatten())[0] == front[0][0]);
        }
    } else {
        let k = if f < l {
            f
        } else {
            l
        };
        let paired = Seq::new(k as nat, |i: int| front[front.len() - 1 - i] + last[last.len() - 1 - i]);
        let rest = front.subrange(0, f - k) + last.subrange(0, l - k);
        assert(combine(front, last) == combine(paired, rest));
        let gf = front[0];
        let gl = last[0];
        assert forall|i: int, j: int| 0 <= i < paired.len() && 0 <= j < paired.len() implies paired[i]
            == paired[j] by {
            assert(front[f - 1 - i] == gf && front[f - 1 - j] == gf);
            assert(last[l - 1 - i] == gl && last[l - 1 - j] == gl);
        }
        assert(paired[0] == gf + gl) by {
            assert(front[f - 1] == gf);
            assert(last[l - 1] == gl);
        }
        if k == f {
            assert(rest =~= last.subrange(0, l - k));
            assert forall|i: int, j: int| 0 <= i < rest.len() && 0 <= j < rest.len() implies rest[i]
                == rest[j] by {
                assert(rest[i] == last[i] && rest[j] == last[j]);
            }
        } else {
            assert(rest =~= front.subrange(0, f - k));
            assert forall|i: int, j: int| 0 <= i < rest.len() && 0 <= j < rest.len() implies rest[i]
                == rest[j] by {
                assert(rest[i] == front[i] && rest[j] == front[j]);
            }
        }
        lemma_combine_keeps_values(paired, rest);
        lemma_uniform_flatten(front);
        lemma_uniform_flatten(last);
        lemma_uniform_flatten(paired);
        lemma_count_true_add(gf, gl);
        assert((gf + gl).len() == gf.len() + gl.len());
        if rest.len() > 0 {
            lemma_uniform_flatten(rest);
            if k == f {
                assert(rest[0] == gl);
                assert(count_true(rest.flatten()) == (l - k) * count_true(gl));
            } else {
                assert(rest[0] == gf);
                assert(count_true(rest.flatten()) == (f - k) * count_true(gf));
            }
        } else {
            assert(rest.flatten() =~= Seq::<bool>::empty());
        }
        assert(k * (count_true(gf) + count_true(gl)) + (f - k) * count_true(gf) + (l - k)
            * count_true(gl) == f * count_true(gf) + l * count_true(gl)) by (nonlinear_arith);
        assert(k * (gf.len() + gl.len()) + (f - k) * gf.len() + (l - k) * gl.len() == f * gf.len()
            + l * gl.len()) by (nonlinear_arith);
        if rest.len() > 0 {
            if k == f {
                assert(rest.flatten().len() == (l - k) * gl.len());
            } else {
                assert(rest.flatten().len() == (f - k) * gf.len());
            }
        }
    }
}

proof fn lemma_unit_groups(n: nat, b: bool)
    ensures
        uniform(unit_groups(n, b)),
        n > 0 ==> unit_groups(n, b)[0] == seq![b],
        n > 0 ==> count_true(unit_groups(n, b).flatten()) == (if b {
            n
        } else {
            0
        }),
        n > 0 ==> unit_groups(n, b).flatten().len() == n,
{
    if n > 0 {
        assert(unit_groups(n, b)[0] == seq![b]);
        lemma_uniform_flatten(unit_groups(n, b));
        assert(seq![b].drop_first() =~= Seq::<bool>::empty());
        assert(count_true(seq![b]) == (if b {
            1nat
        } else {
            0nat
        })) by {
            reveal_with_fuel(count_true, 2);
        }
    }
}

/// The Bjorklund pattern of `hits` onsets over `len` steps has `len` steps, exactly `hits`
/// of them onsets, and starts with an onset.
pub proof fn lemma_bjorklund_length(hits: nat, len: nat)
    requires
        0 < hits < len,
    ensures
        bjorklund(hits, len).len() == len,
        count_true(bjorklund(hits, len)) == hits,
        bjorklund(hits, len)[0],
{
    lemma_unit_groups(hits, true);
    lemma_unit_groups((len - hits) as nat, false);
    lemma_combine_keeps_values(unit_groups(hits, true), unit_groups((len - hits) as nat, false));
}

proof fn lemma_count_rotate(s: Seq<bool>, n: int)
    requires
        0 <= n <= s.len(),
    ensures
        count_true(rotate_left(s, n)) == count_true(s),
        rotate_left(s, n).len() == s.len(),
{
    lemma_count_true_add(s.subrange(n, s.len() as int), s.subrange(0, n));
    lemma_count_true_add(s.subrange(0, n), s.subrange(n, s.len() as int));
    assert(s.subrange(0, n) + s.subrange(n, s.len() as int) =~= s);
}

/// Every rotation of a Euclidean rhythm is the Bjorklund pattern rotated to the left by the
/// offset modulo the pattern length, whatever the sign of the offset.
pub proof fn lemma_euclidean_rotation(steps: u32, pulses: u32, offset: i32)
    requires
        0 < steps < pulses,
    ensures
        spec_euclidean(steps, pulses, offset) == rotate_left(
            bjorklund(steps as nat, pulses as nat),
            (offset as int) % (pulses as int),
        ),
{
    let r = bjorklund(steps as nat, pulses as nat);
    lemma_bjorklund_length(steps as nat, pulses as nat);
    let p = pulses as int;
    if offset < 0 {
        let o = offset as int;
        let n = (-o) % p;
        let q = (-o) / p;
        vstd::arithmetic::div_mod::lemma_fundamental_div_mod(-o, p);
        if n == 0 {
            assert(o == (-q) * p + 0) by (nonlinear_arith)
                requires
                    -o == p * q + n,
                    n == 0,
            ;
            vstd::arithmetic::div_mod::lemma_fundamental_div_mod_converse(o, p, -q, 0);
            assert(rotate_right(r, n) =~= rotate_left(r, 0));
        } else {
            assert(o == (-q - 1) * p + (p - n)) by (nonlinear_arith)
                requires
                    -o == p * q + n,
            ;
            vstd::arithmetic::div_mod::lemma_fundamental_div_mod_converse(o, p, -q - 1, p - n);
            assert(rotate_right(r, n) =~= rotate_left(r, p - n));
        }
    } else if offset == 0 {
        assert(rotate_left(r, 0) =~= r);
    }
}

/// A Euclidean rhythm has `pulses` steps, and `min(steps, pulses)` of them are onsets.
pub proof fn lemma_euclidean_counts(steps: u32, pulses: u32, offset: i32)
    ensures
        spec_euclidean(steps, pulses, offset).len() == pulses,
        count_true(spec_euclidean(steps, pulses, offset)) == (if steps < pulses {
            steps
        } else {
            pulses
        }),
{
    if steps == 0 {
        lemma_count_none(pulses as nat, false);
    } else if steps >= pulses {
        lemma_count_none(pulses as nat, true);
    } else {
        lemma_euclidean_rotation(steps, pulses, offset);
        lemma_bjorklund_length(steps as nat, pulses as nat);
        lemma_count_rotate(bjorklund(steps as nat, pulses as nat), (offset as int) % (pulses as int));
    }
}

proof fn lemma_count_none(n: nat, b: bool)
    ensures
        count_true(Seq::new(n, |i: int| b)) == (if b {
            n
        } else {
            0
        }),
    decreases n,
{
    if n > 0 {
        assert(Seq::new(n, |i: int| b).drop_first() =~= Seq::new((n - 1) as nat, |i: int| b));
        lemma_count_none((n - 1) as nat, b);
    }
}

/// Shifting the offset by one full pattern length gives the same rhythm.
pub proof fn lemma_euclidean_wraps(steps: u32, pulses: u32, offset: i32)
    requires
        pulses > 0,
        i32::MIN <= offset + pulses <= i32::MAX,
    ensures
        spec_euclidean(steps, pulses, offset) == spec_euclidean(
            steps,
            pulses,
            (offset + pulses) as i32,
        ),
{
    if 0 < steps < pulses {
        lemma_euclidean_rotation(steps, pulses, offset);
        lemma_euclidean_rotation(steps, pulses, (offset + pulses) as i32);
        vstd::arithmetic::div_mod::lemma_mod_add_multiples_vanish(offset as int, pulses as int);
    }
}

/// Without rotation, a Euclidean rhythm with at least one onset starts with an onset.
pub proof fn lemma_euclidean_starts_with_onset(steps: u32, pulses: u32)
    requires
        0 < steps,
        0 < pulses,
    ensures
        spec_euclidean(steps, pulses, 0)[0],
{
    if steps < pulses {
        lemma_bjorklund_length(steps as nat, pulses as nat);
    }
}

} // verus!
