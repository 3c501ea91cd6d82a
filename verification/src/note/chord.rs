//! Chords: a root note and a list of intervals, built from interval lists or looked up by
//! name in a table of known chords.

use vstd::prelude::*;
use vstd::relations::{sorted_by, total_ordering};
use vstd::seq_lib::lemma_sorted_unique;
use vstd::string::StrSliceExecFns;
use vstd::string::StringExecFns;

use crate::note::{spec_parse_note, Note};
use crate::text::{append_int, int_text, str_eq, string_of};

verus! {

broadcast use vstd::seq_lib::group_to_multiset_ensures;

// ---------------------------------------------------------------------------------------------
// Ordering of names

/// `a` sorts strictly before `b`: character wise by code point, a proper prefix first.
pub open spec fn lex_lt(a: Seq<char>, b: Seq<char>) -> bool
    decreases a.len(),
{
    if b.len() == 0 {
        false
    } else if a.len() == 0 {
        true
    } else if (a[0] as int) < (b[0] as int) {
        true
    } else if a[0] == b[0] {
        lex_lt(a.drop_first(), b.drop_first())
    } else {
        false
    }
}

/// `a` sorts before `b` or is equal to it.
pub open spec fn lex_le(a: Seq<char>, b: Seq<char>) -> bool {
    !lex_lt(b, a)
}

/// `lex_le` as a relation.
pub open spec fn lex_order() -> spec_fn(Seq<char>, Seq<char>) -> bool {
    |a: Seq<char>, b: Seq<char>| lex_le(a, b)
}

/// Of two names, exactly one sorts first, or they are equal.
pub proof fn lemma_lex_trichotomy(a: Seq<char>, b: Seq<char>)
    ensures
        lex_lt(a, b) || lex_lt(b, a) || a == b,
        !(lex_lt(a, b) && lex_lt(b, a)),
        !lex_lt(a, a),
    decreases a.len(),
{
    if a.len() > 0 && b.len() > 0 {
        lemma_lex_trichotomy(a.drop_first(), b.drop_first());
        if a[0] == b[0] && a.drop_first() == b.drop_first() {
            assert forall|i: int| 0 <= i < a.len() implies a[i] == b[i] by {
                if i > 0 {
                    assert(a[i] == a.drop_first()[i - 1]);
                    assert(b[i] == b.drop_first()[i - 1]);
                }
            }
            assert(a =~= b);
        }
    } else if a.len() == 0 && b.len() == 0 {
        assert(a =~= b);
    }
    if a.len() > 0 {
        lemma_lex_trichotomy(a.drop_first(), a.drop_first());
    }
}

/// Sorting before is transitive.
pub proof fn lemma_lex_transitive(a: Seq<char>, b: Seq<char>, c: Seq<char>)
    requires
        lex_lt(a, b),
        lex_lt(b, c),
    ensures
        lex_lt(a, c),
    decreases a.len(),
{
    if a.len() > 0 && a[0] == b[0] && b[0] == c[0] {
        lemma_lex_transitive(a.drop_first(), b.drop_first(), c.drop_first());
    }
}

/// `lex_le` is a total order.
pub proof fn lemma_lex_total_order()
    ensures
        total_ordering(lex_order()),
{
    assert forall|a: Seq<char>| #[trigger] lex_order()(a, a) by {
        lemma_lex_trichotomy(a, a);
    }
    assert forall|a: Seq<char>, b: Seq<char>|
        #[trigger] lex_order()(a, b) && #[trigger] lex_order()(b, a) implies a == b by {
        lemma_lex_trichotomy(a, b);
    }
    assert forall|a: Seq<char>, b: Seq<char>, c: Seq<char>|
        #[trigger] lex_order()(a, b) && #[trigger] lex_order()(b, c) implies lex_order()(
        a,
        c,
    ) by {
        lemma_lex_trichotomy(a, b);
        lemma_lex_trichotomy(b, c);
        lemma_lex_trichotomy(a, c);
        if lex_lt(c, a) {
            if a == b {
            } else {
                lemma_lex_transitive(c, a, b);
            }
        }
    }
    assert forall|a: Seq<char>, b: Seq<char>|
        #[trigger] lex_order()(a, b) || #[trigger] lex_order()(b, a) by {
        lemma_lex_trichotomy(a, b);
    }
}

/// Whether `a` sorts strictly before `b`.
fn str_lt(a: &str, b: &str) -> (r: bool)
    ensures
        r == lex_lt(a@, b@),
{
    let na = a.unicode_len();
    let nb = b.unicode_len();
    let mut i: usize = 0;
    assert(a@.skip(0) =~= a@);
    assert(b@.skip(0) =~= b@);
    while i < na && i < nb
        invariant
            na == a@.len(),
            nb == b@.len(),
            i <= na,
            i <= nb,
            lex_lt(a@, b@) == lex_lt(a@.skip(i as int), b@.skip(i as int)),
        decreases na - i,
    {
        let ca = a.get_char(i);
        let cb = b.get_char(i);
        assert(a@.skip(i as int)[0] == ca && b@.skip(i as int)[0] == cb);
        if (ca as u32) < (cb as u32) {
            return true;
        }
        if ca != cb {
            return false;
        }
        assert(a@.skip(i as int).drop_first() =~= a@.skip(i + 1));
        assert(b@.skip(i as int).drop_first() =~= b@.skip(i + 1));
        i = i + 1;
    }
    i == na && i < nb
}

/// The characters of each string of a list.
pub open spec fn str_views(s: Seq<&str>) -> Seq<Seq<char>> {
    s.map_values(|x: &str| x@)
}

/// The characters of each string of a list.
pub open spec fn string_views(s: Seq<String>) -> Seq<Seq<char>> {
    s.map_values(|x: String| x@)
}

/// Sorts the strings ascending, by insertion.
fn sort_strs(v: &Vec<&'static str>) -> (r: Vec<&'static str>)
    ensures
        sorted_by(str_views(r@), lex_order()),
        str_views(r@).to_multiset() == str_views(v@).to_multiset(),
{
    let mut r: Vec<&'static str> = Vec::new();
    let mut i: usize = 0;
    assert(str_views(r@) =~= str_views(v@.subrange(0, 0)));
    while i < v.len()
        invariant
            i <= v@.len(),
            sorted_by(str_views(r@), lex_order()),
            str_views(r@).to_multiset() == str_views(v@.subrange(0, i as int)).to_multiset(),
        decreases v@.len() - i,
    {
        let x = v[i];
        let mut p: usize = 0;
        while p < r.len() && !str_lt(x, r[p])
            invariant
                p <= r@.len(),
                forall|k: int| 0 <= k < p ==> !lex_lt(x@, #[trigger] str_views(r@)[k]),
            decreases r@.len() - p,
        {
            p = p + 1;
        }
        let ghost old_r = r@;
        r.insert(p, x);
        proof {
            let ov = str_views(old_r);
            let nv = str_views(r@);
            assert(nv =~= ov.insert(p as int, x@));
            assert forall|a: int, b: int| 0 <= a < b < nv.len() implies #[trigger] lex_order()(
                nv[a],
                nv[b],
            ) by {
                if b < p {
                    assert(lex_order()(ov[a], ov[b]));
                } else if b == p {
                    assert(!lex_lt(x@, ov[a]));
                } else if a < p {
                    assert(lex_order()(ov[a], ov[b - 1]));
                } else if a == p {
                    assert(lex_lt(x@, ov[p as int]));
                    if b - 1 > p {
                        assert(lex_order()(ov[p as int], ov[b - 1]));
                    }
                    lemma_lex_trichotomy(ov[p as int], ov[b - 1]);
                    if lex_lt(ov[b - 1], x@) {
                        lemma_lex_transitive(ov[b - 1], x@, ov[p as int]);
                    }
                } else {
                    assert(lex_order()(ov[a - 1], ov[b - 1]));
                }
            }
            assert(str_views(v@.subrange(0, i + 1)) =~= str_views(v@.subrange(0, i as int)).push(
                x@,
            ));
        }
        i = i + 1;
    }
    assert(v@.subrange(0, v@.len() as int) =~= v@);
    r
}

// ---------------------------------------------------------------------------------------------
// The chord table

/// The number of entries of the chord table.
pub open spec fn chord_count() -> int {
    113
}

/// Name of the chord table's entry `i` (the entries are in ascending order of their names).
pub open spec fn chord_name(i: int) -> Seq<char> {
    if i == 0 {
        "+"@
    } else if i == 1 {
        "+11"@
    } else if i == 2 {
        "+13"@
    } else if i == 3 {
        "+9"@
    } else if i == 4 {
        "-"@
    } else if i == 5 {
        "-#5"@
    } else if i == 6 {
        "-11"@
    } else if i == 7 {
        "-13"@
    } else if i == 8 {
        "-6"@
    } else if i == 9 {
        "-69"@
    } else if i == 10 {
        "-7"@
    } else if i == 11 {
        "-7#5"@
    } else if i == 12 {
        "-7#9"@
    } else if i == 13 {
        "-7b5"@
    } else if i == 14 {
        "-7b9"@
    } else if i == 15 {
        "-9"@
    } else if i == 16 {
        "-^7"@
    } else if i == 17 {
        "11"@
    } else if i == 18 {
        "13"@
    } else if i == 19 {
        "5"@
    } else if i == 20 {
        "6"@
    } else if i == 21 {
        "69"@
    } else if i == 22 {
        "7"@
    } else if i == 23 {
        "7#5"@
    } else if i == 24 {
        "7b5"@
    } else if i == 25 {
        "7b9"@
    } else if i == 26 {
        "7sus2"@
    } else if i == 27 {
        "7sus4"@
    } else if i == 28 {
        "9"@
    } else if i == 29 {
        "9sus2"@
    } else if i == 30 {
        "9sus4"@
    } else if i == 31 {
        "M"@
    } else if i == 32 {
        "M11"@
    } else if i == 33 {
        "M13"@
    } else if i == 34 {
        "M7"@
    } else if i == 35 {
        "M9"@
    } else if i == 36 {
        "^"@
    } else if i == 37 {
        "^11"@
    } else if i == 38 {
        "^13"@
    } else if i == 39 {
        "^7"@
    } else if i == 40 {
        "^9"@
    } else if i == 41 {
        "add11"@
    } else if i == 42 {
        "add13"@
    } else if i == 43 {
        "add9"@
    } else if i == 44 {
        "aug"@
    } else if i == 45 {
        "augmented"@
    } else if i == 46 {
        "dim"@
    } else if i == 47 {
        "dim7"@
    } else if i == 48 {
        "diminished"@
    } else if i == 49 {
        "diminished7"@
    } else if i == 50 {
        "dom11"@
    } else if i == 51 {
        "dom13"@
    } else if i == 52 {
        "dom7"@
    } else if i == 53 {
        "dom9"@
    } else if i == 54 {
        "eleven"@
    } else if i == 55 {
        "five"@
    } else if i == 56 {
        "m"@
    } else if i == 57 {
        "m#5"@
    } else if i == 58 {
        "m11"@
    } else if i == 59 {
        "m13"@
    } else if i == 60 {
        "m6"@
    } else if i == 61 {
        "m69"@
    } else if i == 62 {
        "m7"@
    } else if i == 63 {
        "m7#5"@
    } else if i == 64 {
        "m7#9"@
    } else if i == 65 {
        "m7b5"@
    } else if i == 66 {
        "m7b9"@
    } else if i == 67 {
        "m9"@
    } else if i == 68 {
        "mM7"@
    } else if i == 69 {
        "maj"@
    } else if i == 70 {
        "maj11"@
    } else if i == 71 {
        "maj13"@
    } else if i == 72 {
        "maj7"@
    } else if i == 73 {
        "maj9"@
    } else if i == 74 {
        "major"@
    } else if i == 75 {
        "major11"@
    } else if i == 76 {
        "major13"@
    } else if i == 77 {
        "major7"@
    } else if i == 78 {
        "major9"@
    } else if i == 79 {
        "min"@
    } else if i == 80 {
        "min#5"@
    } else if i == 81 {
        "min11"@
    } else if i == 82 {
        "min13"@
    } else if i == 83 {
        "min6"@
    } else if i == 84 {
        "min69"@
    } else if i == 85 {
        "min7"@
    } else if i == 86 {
        "min7#5"@
    } else if i == 87 {
        "min7#9"@
    } else if i == 88 {
        "min7b5"@
    } else if i == 89 {
        "min7b9"@
    } else if i == 90 {
        "min9"@
    } else if i == 91 {
        "minMaj7"@
    } else if i == 92 {
        "minor"@
    } else if i == 93 {
        "minor#5"@
    } else if i == 94 {
        "minor11"@
    } else if i == 95 {
        "minor13"@
    } else if i == 96 {
        "minor6"@
    } else if i == 97 {
        "minor69"@
    } else if i == 98 {
        "minor7"@
    } else if i == 99 {
        "minor7#5"@
    } else if i == 100 {
        "minor7#9"@
    } else if i == 101 {
        "minor7b5"@
    } else if i == 102 {
        "minor7b9"@
    } else if i == 103 {
        "minor9"@
    } else if i == 104 {
        "minorMajor7"@
    } else if i == 105 {
        "nine"@
    } else if i == 106 {
        "o"@
    } else if i == 107 {
        "o7"@
    } else if i == 108 {
        "six"@
    } else if i == 109 {
        "sixNine"@
    } else if i == 110 {
        "sus2"@
    } else if i == 111 {
        "sus4"@
    } else {
        "thirteen"@
    }
}

/// Intervals of the chord table's entry `i`.
pub open spec fn chord_intervals(i: int) -> Seq<u8> {
    if i == 0 {
        seq![0, 4, 8]
    } else if i == 1 {
        seq![0, 4, 7, 17]
    } else if i == 2 {
        seq![0, 4, 7, 21]
    } else if i == 3 {
        seq![0, 4, 7, 14]
    } else if i == 4 {
        seq![0, 3, 7]
    } else if i == 5 {
        seq![0, 3, 8]
    } else if i == 6 {
        seq![0, 3, 7, 10, 14, 17]
    } else if i == 7 {
        seq![0, 3, 7, 10, 14, 17, 21]
    } else if i == 8 {
        seq![0, 3, 7, 9]
    } else if i == 9 {
        seq![0, 3, 9, 7, 14]
    } else if i == 10 {
        seq![0, 3, 7, 10]
    } else if i == 11 {
        seq![0, 3, 8, 10]
    } else if i == 12 {
        seq![0, 3, 7, 10, 14]
    } else if i == 13 {
        seq![0, 3, 6, 10]
    } else if i == 14 {
        seq![0, 3, 7, 10, 13]
    } else if i == 15 {
        seq![0, 3, 7, 10, 14]
    } else if i == 16 {
        seq![0, 3, 7, 11]
    } else if i == 17 {
        seq![0, 4, 7, 10, 14, 17]
    } else if i == 18 {
        seq![0, 4, 7, 10, 14, 17, 21]
    } else if i == 19 {
        seq![0, 7]
    } else if i == 20 {
        seq![0, 4, 7, 9]
    } else if i == 21 {
        seq![0, 4, 7, 9, 14]
    } else if i == 22 {
        seq![0, 4, 7, 10]
    } else if i == 23 {
        seq![0, 4, 8, 10]
    } else if i == 24 {
        seq![0, 4, 6, 10]
    } else if i == 25 {
        seq![0, 4, 7, 10, 13]
    } else if i == 26 {
        seq![0, 2, 7, 10]
    } else if i == 27 {
        seq![0, 5, 7, 10]
    } else if i == 28 {
        seq![0, 4, 7, 10, 14]
    } else if i == 29 {
        seq![0, 2, 7, 10, 14]
    } else if i == 30 {
        seq![0, 5, 7, 10, 14]
    } else if i == 31 {
        seq![0, 4, 7]
    } else if i == 32 {
        seq![0, 4, 7, 11, 14, 17]
    } else if i == 33 {
        seq![0, 4, 7, 11, 14, 21]
    } else if i == 34 {
        seq![0, 4, 7, 11]
    } else if i == 35 {
        seq![0, 4, 7, 11, 14]
    } else if i == 36 {
        seq![0, 4, 7]
    } else if i == 37 {
        seq![0, 4, 7, 11, 14, 17]
    } else if i == 38 {
        seq![0, 4, 7, 11, 14, 21]
    } else if i == 39 {
        seq![0, 4, 7, 11]
    } else if i == 40 {
        seq![0, 4, 7, 11, 14]
    } else if i == 41 {
        seq![0, 4, 7, 17]
    } else if i == 42 {
        seq![0, 4, 7, 21]
    } else if i == 43 {
        seq![0, 4, 7, 14]
    } else if i == 44 {
        seq![0, 4, 8]
    } else if i == 45 {
        seq![0, 4, 8]
    } else if i == 46 {
        seq![0, 3, 6]
    } else if i == 47 {
        seq![0, 3, 6, 9]
    } else if i == 48 {
        seq![0, 3, 6]
    } else if i == 49 {
        seq![0, 3, 6, 9]
    } else if i == 50 {
        seq![0, 4, 7, 17]
    } else if i == 51 {
        seq![0, 4, 7, 21]
    } else if i == 52 {
        seq![0, 4, 7, 10]
    } else if i == 53 {
        seq![0, 4, 7, 14]
    } else if i == 54 {
        seq![0, 4, 7, 10, 14, 17]
    } else if i == 55 {
        seq![0, 7]
    } else if i == 56 {
        seq![0, 3, 7]
    } else if i == 57 {
        seq![0, 3, 8]
    } else if i == 58 {
        seq![0, 3, 7, 10, 14, 17]
    } else if i == 59 {
        seq![0, 3, 7, 10, 14, 17, 21]
    } else if i == 60 {
        seq![0, 3, 7, 9]
    } else if i == 61 {
        seq![0, 3, 9, 7, 14]
    } else if i == 62 {
        seq![0, 3, 7, 10]
    } else if i == 63 {
        seq![0, 3, 8, 10]
    } else if i == 64 {
        seq![0, 3, 7, 10, 14]
    } else if i == 65 {
        seq![0, 3, 6, 10]
    } else if i == 66 {
        seq![0, 3, 7, 10, 13]
    } else if i == 67 {
        seq![0, 3, 7, 10, 14]
    } else if i == 68 {
        seq![0, 3, 7, 11]
    } else if i == 69 {
        seq![0, 4, 7]
    } else if i == 70 {
        seq![0, 4, 7, 11, 14, 17]
    } else if i == 71 {
        seq![0, 4, 7, 11, 14, 21]
    } else if i == 72 {
        seq![0, 4, 7, 11]
    } else if i == 73 {
        seq![0, 4, 7, 11, 14]
    } else if i == 74 {
        seq![0, 4, 7]
    } else if i == 75 {
        seq![0, 4, 7, 11, 14, 17]
    } else if i == 76 {
        seq![0, 4, 7, 11, 14, 21]
    } else if i == 77 {
        seq![0, 4, 7, 11]
    } else if i == 78 {
        seq![0, 4, 7, 11, 14]
    } else if i == 79 {
        seq![0, 3, 7]
    } else if i == 80 {
        seq![0, 3, 8]
    } else if i == 81 {
        seq![0, 3, 7, 10, 14, 17]
    } else if i == 82 {
        seq![0, 3, 7, 10, 14, 17, 21]
    } else if i == 83 {
        seq![0, 3, 7, 9]
    } else if i == 84 {
        seq![0, 3, 9, 7, 14]
    } else if i == 85 {
        seq![0, 3, 7, 10]
    } else if i == 86 {
        seq![0, 3, 8, 10]
    } else if i == 87 {
        seq![0, 3, 7, 10, 14]
    } else if i == 88 {
        seq![0, 3, 6, 10]
    } else if i == 89 {
        seq![0, 3, 7, 10, 13]
    } else if i == 90 {
        seq![0, 3, 7, 10, 14]
    } else if i == 91 {
        seq![0, 3, 7, 11]
    } else if i == 92 {
        seq![0, 3, 7]
    } else if i == 93 {
        seq![0, 3, 8]
    } else if i == 94 {
        seq![0, 3, 7, 10, 14, 17]
    } else if i == 95 {
        seq![0, 3, 7, 10, 14, 17, 21]
    } else if i == 96 {
        seq![0, 3, 7, 9]
    } else if i == 97 {
        seq![0, 3, 9, 7, 14]
    } else if i == 98 {
        seq![0, 3, 7, 10]
    } else if i == 99 {
        seq![0, 3, 8, 10]
    } else if i == 100 {
        seq![0, 3, 7, 10, 14]
    } else if i == 101 {
        seq![0, 3, 6, 10]
    } else if i == 102 {
        seq![0, 3, 7, 10, 13]
    } else if i == 103 {
        seq![0, 3, 7, 10, 14]
    } else if i == 104 {
        seq![0, 3, 7, 11]
    } else if i == 105 {
        seq![0, 4, 7, 10, 14]
    } else if i == 106 {
        seq![0, 3, 6]
    } else if i == 107 {
        seq![0, 3, 6, 9]
    } else if i == 108 {
        seq![0, 4, 7, 9]
    } else if i == 109 {
        seq![0, 4, 7, 9, 14]
    } else if i == 110 {
        seq![0, 2, 7]
    } else if i == 111 {
        seq![0, 5, 7]
    } else {
        seq![0, 4, 7, 10, 14, 17, 21]
    }
}

/// The chord table's entry `i`: its name and intervals.
fn chord_entry(i: usize) -> (r: (&'static str, Vec<u8>))
    requires
        i < chord_count(),
    ensures
        r.0@ == chord_name(i as int),
        r.1@ == chord_intervals(i as int),
{
    match i {
        0 => ("+", vec![0, 4, 8]),
        1 => ("+11", vec![0, 4, 7, 17]),
        2 => ("+13", vec![0, 4, 7, 21]),
        3 => ("+9", vec![0, 4, 7, 14]),
        4 => ("-", vec![0, 3, 7]),
        5 => ("-#5", vec![0, 3, 8]),
        6 => ("-11", vec![0, 3, 7, 10, 14, 17]),
        7 => ("-13", vec![0, 3, 7, 10, 14, 17, 21]),
        8 => ("-6", vec![0, 3, 7, 9]),
        9 => ("-69", vec![0, 3, 9, 7, 14]),
        10 => ("-7", vec![0, 3, 7, 10]),
        11 => ("-7#5", vec![0, 3, 8, 10]),
        12 => ("-7#9", vec![0, 3, 7, 10, 14]),
        13 => ("-7b5", vec![0, 3, 6, 10]),
        14 => ("-7b9", vec![0, 3, 7, 10, 13]),
        15 => ("-9", vec![0, 3, 7, 10, 14]),
        16 => ("-^7", vec![0, 3, 7, 11]),
        17 => ("11", vec![0, 4, 7, 10, 14, 17]),
        18 => ("13", vec![0, 4, 7, 10, 14, 17, 21]),
        19 => ("5", vec![0, 7]),
        20 => ("6", vec![0, 4, 7, 9]),
        21 => ("69", vec![0, 4, 7, 9, 14]),
        22 => ("7", vec![0, 4, 7, 10]),
        23 => ("7#5", vec![0, 4, 8, 10]),
        24 => ("7b5", vec![0, 4, 6, 10]),
        25 => ("7b9", vec![0, 4, 7, 10, 13]),
        26 => ("7sus2", vec![0, 2, 7, 10]),
        27 => ("7sus4", vec![0, 5, 7, 10]),
        28 => ("9", vec![0, 4, 7, 10, 14]),
        29 => ("9sus2", vec![0, 2, 7, 10, 14]),
        30 => ("9sus4", vec![0, 5, 7, 10, 14]),
        31 => ("M", vec![0, 4, 7]),
        32 => ("M11", vec![0, 4, 7, 11, 14, 17]),
        33 => ("M13", vec![0, 4, 7, 11, 14, 21]),
        34 => ("M7", vec![0, 4, 7, 11]),
        35 => ("M9", vec![0, 4, 7, 11, 14]),
        36 => ("^", vec![0, 4, 7]),
        37 => ("^11", vec![0, 4, 7, 11, 14, 17]),
        38 => ("^13", vec![0, 4, 7, 11, 14, 21]),
        39 => ("^7", vec![0, 4, 7, 11]),
        40 => ("^9", vec![0, 4, 7, 11, 14]),
        41 => ("add11", vec![0, 4, 7, 17]),
        42 => ("add13", vec![0, 4, 7, 21]),
        43 => ("add9", vec![0, 4, 7, 14]),
        44 => ("aug", vec![0, 4, 8]),
        45 => ("augmented", vec![0, 4, 8]),
        46 => ("dim", vec![0, 3, 6]),
        47 => ("dim7", vec![0, 3, 6, 9]),
        48 => ("diminished", vec![0, 3, 6]),
        49 => ("diminished7", vec![0, 3, 6, 9]),
        50 => ("dom11", vec![0, 4, 7, 17]),
        51 => ("dom13", vec![0, 4, 7, 21]),
        52 => ("dom7", vec![0, 4, 7, 10]),
        53 => ("dom9", vec![0, 4, 7, 14]),
        54 => ("eleven", vec![0, 4, 7, 10, 14, 17]),
        55 => ("five", vec![0, 7]),
        56 => ("m", vec![0, 3, 7]),
        57 => ("m#5", vec![0, 3, 8]),
        58 => ("m11", vec![0, 3, 7, 10, 14, 17]),
        59 => ("m13", vec![0, 3, 7, 10, 14, 17, 21]),
        60 => ("m6", vec![0, 3, 7, 9]),
        61 => ("m69", vec![0, 3, 9, 7, 14]),
        62 => ("m7", vec![0, 3, 7, 10]),
        63 => ("m7#5", vec![0, 3, 8, 10]),
        64 => ("m7#9", vec![0, 3, 7, 10, 14]),
        65 => ("m7b5", vec![0, 3, 6, 10]),
        66 => ("m7b9", vec![0, 3, 7, 10, 13]),
        67 => ("m9", vec![0, 3, 7, 10, 14]),
        68 => ("mM7", vec![0, 3, 7, 11]),
        69 => ("maj", vec![0, 4, 7]),
        70 => ("maj11", vec![0, 4, 7, 11, 14, 17]),
        71 => ("maj13", vec![0, 4, 7, 11, 14, 21]),
        72 => ("maj7", vec![0, 4, 7, 11]),
        73 => ("maj9", vec![0, 4, 7, 11, 14]),
        74 => ("major", vec![0, 4, 7]),
        75 => ("major11", vec![0, 4, 7, 11, 14, 17]),
        76 => ("major13", vec![0, 4, 7, 11, 14, 21]),
        77 => ("major7", vec![0, 4, 7, 11]),
        78 => ("major9", vec![0, 4, 7, 11, 14]),
        79 => ("min", vec![0, 3, 7]),
        80 => ("min#5", vec![0, 3, 8]),
        81 => ("min11", vec![0, 3, 7, 10, 14, 17]),
        82 => ("min13", vec![0, 3, 7, 10, 14, 17, 21]),
        83 => ("min6", vec![0, 3, 7, 9]),
        84 => ("min69", vec![0, 3, 9, 7, 14]),
        85 => ("min7", vec![0, 3, 7, 10]),
        86 => ("min7#5", vec![0, 3, 8, 10]),
        87 => ("min7#9", vec![0, 3, 7, 10, 14]),
        88 => ("min7b5", vec![0, 3, 6, 10]),
        89 => ("min7b9", vec![0, 3, 7, 10, 13]),
        90 => ("min9", vec![0, 3, 7, 10, 14]),
        91 => ("minMaj7", vec![0, 3, 7, 11]),
        92 => ("minor", vec![0, 3, 7]),
        93 => ("minor#5", vec![0, 3, 8]),
        94 => ("minor11", vec![0, 3, 7, 10, 14, 17]),
        95 => ("minor13", vec![0, 3, 7, 10, 14, 17, 21]),
        96 => ("minor6", vec![0, 3, 7, 9]),
        97 => ("minor69", vec![0, 3, 9, 7, 14]),
        98 => ("minor7", vec![0, 3, 7, 10]),
        99 => ("minor7#5", vec![0, 3, 8, 10]),
        100 => ("minor7#9", vec![0, 3, 7, 10, 14]),
        101 => ("minor7b5", vec![0, 3, 6, 10]),
        102 => ("minor7b9", vec![0, 3, 7, 10, 13]),
        103 => ("minor9", vec![0, 3, 7, 10, 14]),
        104 => ("minorMajor7", vec![0, 3, 7, 11]),
        105 => ("nine", vec![0, 4, 7, 10, 14]),
        106 => ("o", vec![0, 3, 6]),
        107 => ("o7", vec![0, 3, 6, 9]),
        108 => ("six", vec![0, 4, 7, 9]),
        109 => ("sixNine", vec![0, 4, 7, 9, 14]),
        110 => ("sus2", vec![0, 2, 7]),
        111 => ("sus4", vec![0, 5, 7]),
        _ => ("thirteen", vec![0, 4, 7, 10, 14, 17, 21]),
    }
}

/// The names of the table ascend strictly from one entry to the next.
proof fn lemma_table_adjacent_ascending()
    ensures
        forall|i: int| 0 <= i < chord_count() - 1 ==> lex_lt(#[trigger] chord_name(i), chord_name(i + 1)),
{
    assert forall|i: int| 0 <= i < chord_count() - 1 implies lex_lt(#[trigger] chord_name(i), chord_name(i + 1)) by {
        reveal_with_fuel(lex_lt, 12);
        if i == 0 {
            reveal_strlit("+");
            reveal_strlit("+11");
        } else if i == 1 {
            reveal_strlit("+11");
            reveal_strlit("+13");
        } else if i == 2 {
            reveal_strlit("+13");
            reveal_strlit("+9");
        } else if i == 3 {
            reveal_strlit("+9");
            reveal_strlit("-");
        } else if i == 4 {
            reveal_strlit("-");
            reveal_strlit("-#5");
        } else if i == 5 {
            reveal_strlit("-#5");
            reveal_strlit("-11");
        } else if i == 6 {
            reveal_strlit("-11");
            reveal_strlit("-13");
        } else if i == 7 {
            reveal_strlit("-13");
            reveal_strlit("-6");
        } else if i == 8 {
            reveal_strlit("-6");
            reveal_strlit("-69");
        } else if i == 9 {
            reveal_strlit("-69");
            reveal_strlit("-7");
        } else if i == 10 {
            reveal_strlit("-7");
            reveal_strlit("-7#5");
        } else if i == 11 {
            reveal_strlit("-7#5");
            reveal_strlit("-7#9");
        } else if i == 12 {
            reveal_strlit("-7#9");
            reveal_strlit("-7b5");
        } else if i == 13 {
            reveal_strlit("-7b5");
            reveal_strlit("-7b9");
        } else if i == 14 {
            reveal_strlit("-7b9");
            reveal_strlit("-9");
        } else if i == 15 {
            reveal_strlit("-9");
            reveal_strlit("-^7");
        } else if i == 16 {
            reveal_strlit("-^7");
            reveal_strlit("11");
        } else if i == 17 {
            reveal_strlit("11");
            reveal_strlit("13");
        } else if i == 18 {
            reveal_strlit("13");
            reveal_strlit("5");
        } else if i == 19 {
            reveal_strlit("5");
            reveal_strlit("6");
        } else if i == 20 {
            reveal_strlit("6");
            reveal_strlit("69");
        } else if i == 21 {
            reveal_strlit("69");
            reveal_strlit("7");
        } else if i == 22 {
            reveal_strlit("7");
            reveal_strlit("7#5");
        } else if i == 23 {
            reveal_strlit("7#5");
            reveal_strlit("7b5");
        } else if i == 24 {
            reveal_strlit("7b5");
            reveal_strlit("7b9");
        } else if i == 25 {
            reveal_strlit("7b9");
            reveal_strlit("7sus2");
        } else if i == 26 {
            reveal_strlit("7sus2");
            reveal_strlit("7sus4");
        } else if i == 27 {
            reveal_strlit("7sus4");
            reveal_strlit("9");
        } else if i == 28 {
            reveal_strlit("9");
            reveal_strlit("9sus2");
        } else if i == 29 {
            reveal_strlit("9sus2");
            reveal_strlit("9sus4");
        } else if i == 30 {
            reveal_strlit("9sus4");
            reveal_strlit("M");
        } else if i == 31 {
            reveal_strlit("M");
            reveal_strlit("M11");
        } else if i == 32 {
            reveal_strlit("M11");
            reveal_strlit("M13");
        } else if i == 33 {
            reveal_strlit("M13");
            reveal_strlit("M7");
        } else if i == 34 {
            reveal_strlit("M7");
            reveal_strlit("M9");
        } else if i == 35 {
            reveal_strlit("M9");
            reveal_strlit("^");
        } else if i == 36 {
            reveal_strlit("^");
            reveal_strlit("^11");
        } else if i == 37 {
            reveal_strlit("^11");
            reveal_strlit("^13");
        } else if i == 38 {
            reveal_strlit("^13");
            reveal_strlit("^7");
        } else if i == 39 {
            reveal_strlit("^7");
            reveal_strlit("^9");
        } else if i == 40 {
            reveal_strlit("^9");
            reveal_strlit("add11");
        } else if i == 41 {
            reveal_strlit("add11");
            reveal_strlit("add13");
        } else if i == 42 {
            reveal_strlit("add13");
            reveal_strlit("add9");
        } else if i == 43 {
            reveal_strlit("add9");
            reveal_strlit("aug");
        } else if i == 44 {
            reveal_strlit("aug");
            reveal_strlit("augmented");
        } else if i == 45 {
            reveal_strlit("augmented");
            reveal_strlit("dim");
        } else if i == 46 {
            reveal_strlit("dim");
            reveal_strlit("dim7");
        } else if i == 47 {
            reveal_strlit("dim7");
            reveal_strlit("diminished");
        } else if i == 48 {
            reveal_strlit("diminished");
            reveal_strlit("diminished7");
        } else if i == 49 {
            reveal_strlit("diminished7");
            reveal_strlit("dom11");
        } else if i == 50 {
            reveal_strlit("dom11");
            reveal_strlit("dom13");
        } else if i == 51 {
            reveal_strlit("dom13");
            reveal_strlit("dom7");
        } else if i == 52 {
            reveal_strlit("dom7");
            reveal_strlit("dom9");
        } else if i == 53 {
            reveal_strlit("dom9");
            reveal_strlit("eleven");
        } else if i == 54 {
            reveal_strlit("eleven");
            reveal_strlit("five");
        } else if i == 55 {
            reveal_strlit("five");
            reveal_strlit("m");
        } else if i == 56 {
            reveal_strlit("m");
            reveal_strlit("m#5");
        } else if i == 57 {
            reveal_strlit("m#5");
            reveal_strlit("m11");
        } else if i == 58 {
            reveal_strlit("m11");
            reveal_strlit("m13");
        } else if i == 59 {
            reveal_strlit("m13");
            reveal_strlit("m6");
        } else if i == 60 {
            reveal_strlit("m6");
            reveal_strlit("m69");
        } else if i == 61 {
            reveal_strlit("m69");
            reveal_strlit("m7");
        } else if i == 62 {
            reveal_strlit("m7");
            reveal_strlit("m7#5");
        } else if i == 63 {
            reveal_strlit("m7#5");
            reveal_strlit("m7#9");
        } else if i == 64 {
            reveal_strlit("m7#9");
            reveal_strlit("m7b5");
        } else if i == 65 {
            reveal_strlit("m7b5");
            reveal_strlit("m7b9");
        } else if i == 66 {
            reveal_strlit("m7b9");
            reveal_strlit("m9");
        } else if i == 67 {
            reveal_strlit("m9");
            reveal_strlit("mM7");
        } else if i == 68 {
            reveal_strlit("mM7");
            reveal_strlit("maj");
        } else if i == 69 {
            reveal_strlit("maj");
            reveal_strlit("maj11");
        } else if i == 70 {
            reveal_strlit("maj11");
            reveal_strlit("maj13");
        } else if i == 71 {
            reveal_strlit("maj13");
            reveal_strlit("maj7");
        } else if i == 72 {
            reveal_strlit("maj7");
            reveal_strlit("maj9");
        } else if i == 73 {
            reveal_strlit("maj9");
            reveal_strlit("major");
        } else if i == 74 {
            reveal_strlit("major");
            reveal_strlit("major11");
        } else if i == 75 {
            reveal_strlit("major11");
            reveal_strlit("major13");
        } else if i == 76 {
            reveal_strlit("major13");
            reveal_strlit("major7");
        } else if i == 77 {
            reveal_strlit("major7");
            reveal_strlit("major9");
        } else if i == 78 {
            reveal_strlit("major9");
            reveal_strlit("min");
        } else if i == 79 {
            reveal_strlit("min");
            reveal_strlit("min#5");
        } else if i == 80 {
            reveal_strlit("min#5");
            reveal_strlit("min11");
        } else if i == 81 {
            reveal_strlit("min11");
            reveal_strlit("min13");
        } else if i == 82 {
            reveal_strlit("min13");
            reveal_strlit("min6");
        } else if i == 83 {
            reveal_strlit("min6");
            reveal_strlit("min69");
        } else if i == 84 {
            reveal_strlit("min69");
            reveal_strlit("min7");
        } else if i == 85 {
            reveal_strlit("min7");
            reveal_strlit("min7#5");
        } else if i == 86 {
            reveal_strlit("min7#5");
            reveal_strlit("min7#9");
        } else if i == 87 {
            reveal_strlit("min7#9");
            reveal_strlit("min7b5");
        } else if i == 88 {
            reveal_strlit("min7b5");
            reveal_strlit("min7b9");
        } else if i == 89 {
            reveal_strlit("min7b9");
            reveal_strlit("min9");
        } else if i == 90 {
            reveal_strlit("min9");
            reveal_strlit("minMaj7");
        } else if i == 91 {
            reveal_strlit("minMaj7");
            reveal_strlit("minor");
        } else if i == 92 {
            reveal_strlit("minor");
            reveal_strlit("minor#5");
        } else if i == 93 {
            reveal_strlit("minor#5");
            reveal_strlit("minor11");
        } else if i == 94 {
            reveal_strlit("minor11");
            reveal_strlit("minor13");
        } else if i == 95 {
            reveal_strlit("minor13");
            reveal_strlit("minor6");
        } else if i == 96 {
            reveal_strlit("minor6");
            reveal_strlit("minor69");
        } else if i == 97 {
            reveal_strlit("minor69");
            reveal_strlit("minor7");
        } else if i == 98 {
            reveal_strlit("minor7");
            reveal_strlit("minor7#5");
        } else if i == 99 {
            reveal_strlit("minor7#5");
            reveal_strlit("minor7#9");
        } else if i == 100 {
            reveal_strlit("minor7#9");
            reveal_strlit("minor7b5");
        } else if i == 101 {
            reveal_strlit("minor7b5");
            reveal_strlit("minor7b9");
        } else if i == 102 {
            reveal_strlit("minor7b9");
            reveal_strlit("minor9");
        } else if i == 103 {
            reveal_strlit("minor9");
            reveal_strlit("minorMajor7");
        } else if i == 104 {
            reveal_strlit("minorMajor7");
            reveal_strlit("nine");
        } else if i == 105 {
            reveal_strlit("nine");
            reveal_strlit("o");
        } else if i == 106 {
            reveal_strlit("o");
            reveal_strlit("o7");
        } else if i == 107 {
            reveal_strlit("o7");
            reveal_strlit("six");
        } else if i == 108 {
            reveal_strlit("six");
            reveal_strlit("sixNine");
        } else if i == 109 {
            reveal_strlit("sixNine");
            reveal_strlit("sus2");
        } else if i == 110 {
            reveal_strlit("sus2");
            reveal_strlit("sus4");
        } else if i == 111 {
            reveal_strlit("sus4");
            reveal_strlit("thirteen");
        }
    }
}

proof fn lemma_table_ascending_from(i: int, j: int)
    requires
        0 <= i < j < chord_count(),
    ensures
        lex_lt(chord_name(i), chord_name(j)),
    decreases j - i,
{
    lemma_table_adjacent_ascending();
    if j > i + 1 {
        lemma_table_ascending_from(i, j - 1);
        assert(lex_lt(chord_name(j - 1), chord_name(j)));
        lemma_lex_transitive(chord_name(i), chord_name(j - 1), chord_name(j));
    }
}

/// The names of the chord table ascend strictly, so no name occurs twice, and the sorted
/// names are the table's names in table order.
pub proof fn lemma_table_names_strictly_ascending()
    ensures
        forall|i: int, j: int|
            0 <= i < j < chord_count() ==> lex_lt(
                #[trigger] table_names()[i],
                #[trigger] table_names()[j],
            ),
        sorted_names() == table_names(),
{
    assert forall|i: int, j: int| 0 <= i < j < chord_count() implies lex_lt(
        #[trigger] table_names()[i],
        #[trigger] table_names()[j],
    ) by {
        lemma_table_ascending_from(i, j);
    }
    assert forall|i: int, j: int|
        0 <= i < j < table_names().len() implies #[trigger] lex_order()(
        table_names()[i],
        table_names()[j],
    ) by {
        lemma_table_ascending_from(i, j);
        lemma_lex_trichotomy(table_names()[i], table_names()[j]);
    }
    lemma_sorted_version(table_names(), table_names());
}

/// Two different names that `unique_names` keeps have different intervals, unless one of
/// them starts with "dom" or "add".
pub proof fn lemma_unique_names_distinct_intervals(i: int, j: int)
    requires
        0 <= i < chord_count(),
        0 <= j < chord_count(),
        i != j,
        is_unique_name(i),
        is_unique_name(j),
        chord_intervals(i) == chord_intervals(j),
    ensures
        starts_with(chord_name(i), "dom"@) || starts_with(chord_name(i), "add"@) || starts_with(
            chord_name(j),
            "dom"@,
        ) || starts_with(chord_name(j), "add"@),
{
}

/// The names of the chord table, in table order.
pub open spec fn table_names() -> Seq<Seq<char>> {
    Seq::new(chord_count() as nat, |i: int| chord_name(i))
}

/// The names of the chord table's entries that are kept when the table is reduced to unique
/// interval lists: names starting with "dom" or "add" and, of each group of names with equal
/// intervals, its one longest name (no group of this table has two longest names but ones
/// starting with "dom" or "add").
pub open spec fn is_unique_name(i: int) -> bool {
    ||| starts_with(chord_name(i), "dom"@)
    ||| starts_with(chord_name(i), "add"@)
    ||| forall|j: int|
        0 <= j < chord_count() && j != i && #[trigger] chord_intervals(j) == chord_intervals(i)
            ==> chord_name(j).len() < chord_name(i).len()
}

/// The names of the first `n` entries of the table that `is_unique_name` keeps.
pub open spec fn unique_names_upto(n: int) -> Seq<Seq<char>>
    decreases n,
{
    if n <= 0 {
        seq![]
    } else if is_unique_name(n - 1) {
        unique_names_upto(n - 1).push(chord_name(n - 1))
    } else {
        unique_names_upto(n - 1)
    }
}

/// The names, sorted ascending.
pub open spec fn sorted_version(names: Seq<Seq<char>>) -> Seq<Seq<char>> {
    choose|s: Seq<Seq<char>>| sorted_by(s, lex_order()) && s.to_multiset() == names.to_multiset()
}

/// The names that `names` lists: the table's names, sorted ascending.
pub open spec fn sorted_names() -> Seq<Seq<char>> {
    sorted_version(table_names())
}

/// The names that `unique_names` lists: the kept names, sorted ascending.
pub open spec fn sorted_unique_names() -> Seq<Seq<char>> {
    sorted_version(unique_names_upto(chord_count()))
}

/// A sorted list that holds the same names as `names` is their sorted version.
pub proof fn lemma_sorted_version(r: Seq<Seq<char>>, names: Seq<Seq<char>>)
    requires
        sorted_by(r, lex_order()),
        r.to_multiset() == names.to_multiset(),
    ensures
        r == sorted_version(names),
{
    lemma_lex_total_order();
    let chosen = sorted_version(names);
    assert(sorted_by(chosen, lex_order()) && chosen.to_multiset() == names.to_multiset());
    lemma_sorted_unique(r, chosen, lex_order());
}

/// Converts each string slice of a list to a string.
fn to_strings(v: &Vec<&'static str>) -> (r: Vec<String>)
    ensures
        string_views(r@) == str_views(v@),
{
    let mut r: Vec<String> = Vec::new();
    let mut i: usize = 0;
    while i < v.len()
        invariant
            i <= v@.len(),
            r@.len() == i,
            forall|k: int| 0 <= k < i ==> (#[trigger] r@[k])@ == v@[k]@,
        decreases v@.len() - i,
    {
        r.push(string_of(v[i]));
        i = i + 1;
    }
    assert(string_views(r@) =~= str_views(v@));
    r
}

/// The names of the chord table, in table order.
fn table_name_list() -> (r: Vec<&'static str>)
    ensures
        str_views(r@) == table_names(),
{
    let mut r: Vec<&'static str> = Vec::new();
    let mut i: usize = 0;
    while i < 113
        invariant
            i <= 113,
            r@.len() == i,
            forall|k: int| 0 <= k < i ==> (#[trigger] r@[k])@ == chord_name(k),
        decreases 113 - i,
    {
        let (name, _) = chord_entry(i);
        r.push(name);
        i = i + 1;
    }
    assert(str_views(r@) =~= table_names());
    r
}

/// The names of the chord table, sorted ascending.
fn sorted_name_list() -> (r: Vec<&'static str>)
    ensures
        str_views(r@) == sorted_names(),
        sorted_by(sorted_names(), lex_order()),
        sorted_names().to_multiset() == table_names().to_multiset(),
{
    let names = table_name_list();
    let r = sort_strs(&names);
    proof {
        lemma_sorted_version(str_views(r@), table_names());
    }
    r
}

/// Whether `s` starts with `prefix`.
pub open spec fn starts_with(s: Seq<char>, prefix: Seq<char>) -> bool {
    s.len() >= prefix.len() && s.take(prefix.len() as int) == prefix
}

/// Whether `s` starts with `prefix`.
fn str_starts_with(s: &str, prefix: &str) -> (r: bool)
    ensures
        r == starts_with(s@, prefix@),
{
    let n = prefix.unicode_len();
    if s.unicode_len() < n {
        return false;
    }
    str_eq(s.substring_char(0, n), prefix)
}

/// Exact equality of two byte vectors.
fn bytes_eq(a: &Vec<u8>, b: &Vec<u8>) -> (r: bool)
    ensures
        r == (a@ == b@),
{
    if a.len() != b.len() {
        return false;
    }
    let mut i: usize = 0;
    while i < a.len()
        invariant
            a@.len() == b@.len(),
            i <= a@.len(),
            forall|k: int| 0 <= k < i ==> a@[k] == b@[k],
        decreases a@.len() - i,
    {
        if a[i] != b[i] {
            return false;
        }
        i = i + 1;
    }
    assert(a@ =~= b@);
    true
}

/// The names that `is_unique_name` keeps, in table order.
fn unique_name_list() -> (r: Vec<&'static str>)
    ensures
        str_views(r@) == unique_names_upto(chord_count()),
{
    let mut names: Vec<&'static str> = Vec::new();
    let mut intervals: Vec<Vec<u8>> = Vec::new();
    let mut i: usize = 0;
    while i < 113
        invariant
            i <= 113,
            names@.len() == i,
            intervals@.len() == i,
            forall|k: int| 0 <= k < i ==> (#[trigger] names@[k])@ == chord_name(k),
            forall|k: int| 0 <= k < i ==> (#[trigger] intervals@[k])@ == chord_intervals(k),
        decreases 113 - i,
    {
        let (name, iv) = chord_entry(i);
        names.push(name);
        intervals.push(iv);
        i = i + 1;
    }
    let mut r: Vec<&'static str> = Vec::new();
    let mut i: usize = 0;
    while i < 113
        invariant
            i <= 113,
            names@.len() == 113,
            intervals@.len() == 113,
            forall|k: int| 0 <= k < 113 ==> (#[trigger] names@[k])@ == chord_name(k),
            forall|k: int| 0 <= k < 113 ==> (#[trigger] intervals@[k])@ == chord_intervals(k),
            str_views(r@) == unique_names_upto(i as int),
        decreases 113 - i,
    {
        let name = names[i];
        let mut keep = str_starts_with(name, "dom") || str_starts_with(name, "add");
        if !keep {
            let len = name.unicode_len();
            let mut longest = true;
            let mut j: usize = 0;
            while j < 113
                invariant
                    i < 113,
                    j <= 113,
                    names@.len() == 113,
                    intervals@.len() == 113,
                    forall|k: int| 0 <= k < 113 ==> (#[trigger] names@[k])@ == chord_name(k),
                    forall|k: int|
                        0 <= k < 113 ==> (#[trigger] intervals@[k])@ == chord_intervals(k),
                    len == chord_name(i as int).len(),
                    longest == forall|k: int|
                        0 <= k < j && k != i && #[trigger] chord_intervals(k) == chord_intervals(
                            i as int,
                        ) ==> chord_name(k).len() < chord_name(i as int).len(),
                decreases 113 - j,
            {
                assert(names@[j as int]@ == chord_name(j as int));
                assert(intervals@[j as int]@ == chord_intervals(j as int));
                assert(intervals@[i as int]@ == chord_intervals(i as int));
                if j != i && bytes_eq(&intervals[j], &intervals[i]) && names[j].unicode_len()
                    >= len {
                    longest = false;
                    assert(!(chord_name(j as int).len() < chord_name(i as int).len()));
                }
                j = j + 1;
            }
            keep = longest;
        }
        assert(keep == is_unique_name(i as int)) by {
            assert(names@[i as int]@ == chord_name(i as int));
        }
        if keep {
            r.push(name);
        }
        assert(str_views(r@) =~= unique_names_upto(i + 1));
        i = i + 1;
    }
    r
}

/// The names, each followed by a comma but the last.
pub open spec fn join_with_commas(s: Seq<Seq<char>>) -> Seq<char>
    decreases s.len(),
{
    if s.len() == 0 {
        seq![]
    } else if s.len() == 1 {
        s[0]
    } else {
        join_with_commas(s.drop_last()) + ","@ + s.last()
    }
}

/// Appends the names, separated by commas.
fn append_joined(out: &mut String, v: &Vec<&'static str>)
    ensures
        final(out)@ == old(out)@ + join_with_commas(str_views(v@)),
{
    let ghost start = out@;
    let mut i: usize = 0;
    assert(str_views(v@.subrange(0, 0)) =~= seq![]);
    assert(start =~= start + join_with_commas(seq![]));
    while i < v.len()
        invariant
            i <= v@.len(),
            out@ == start + join_with_commas(str_views(v@.subrange(0, i as int))),
        decreases v@.len() - i,
    {
        let ghost pre = str_views(v@.subrange(0, i as int));
        let ghost cur = str_views(v@.subrange(0, i + 1));
        assert(cur.drop_last() =~= pre);
        assert(cur.last() == v@[i as int]@);
        if i > 0 {
            out.append(",");
        }
        out.append(v[i]);
        if i == 0 {
            assert(out@ =~= start + join_with_commas(cur));
        } else {
            assert(out@ =~= start + join_with_commas(cur));
        }
        i = i + 1;
    }
    assert(v@.subrange(0, v@.len() as int) =~= v@);
}

/// The first entry of the table, from `i` on, named `name`; `chord_count()` if there is none.
pub open spec fn first_chord_named(name: Seq<char>, i: int) -> int
    decreases chord_count() - i,
{
    if i >= chord_count() {
        chord_count()
    } else if chord_name(i) == name {
        i
    } else {
        first_chord_named(name, i + 1)
    }
}

/// The entry of the table named `name`; `chord_count()` if there is none.
pub open spec fn chord_index(name: Seq<char>) -> int {
    first_chord_named(name, 0)
}

proof fn lemma_first_chord_named(name: Seq<char>, from: int, i: int)
    requires
        0 <= from <= i < chord_count(),
        chord_name(i) == name,
    ensures
        first_chord_named(name, from) <= i,
    decreases i - from,
{
    if chord_name(from) != name {
        lemma_first_chord_named(name, from + 1, i);
    }
}

/// Each name of the sorted list of names is a known chord name.
proof fn lemma_sorted_names_known()
    requires
        sorted_by(sorted_names(), lex_order()),
        sorted_names().to_multiset() == table_names().to_multiset(),
    ensures
        forall|k: int|
            0 <= k < sorted_names().len() ==> chord_index(#[trigger] sorted_names()[k])
                < chord_count(),
{
    assert forall|k: int| 0 <= k < sorted_names().len() implies chord_index(
        #[trigger] sorted_names()[k],
    ) < chord_count() by {
        let x = sorted_names()[k];
        assert(sorted_names().to_multiset().contains(x));
        assert(table_names().contains(x));
        let i = choose|i: int| 0 <= i < table_names().len() && table_names()[i] == x;
        lemma_first_chord_named(x, 0, i);
    }
}

proof fn lemma_first_chord_named_found(name: Seq<char>, from: int)
    requires
        0 <= from,
        first_chord_named(name, from) < chord_count(),
    ensures
        chord_name(first_chord_named(name, from)) == name,
        from <= first_chord_named(name, from),
    decreases chord_count() - from,
{
    if from < chord_count() && chord_name(from) != name {
        lemma_first_chord_named_found(name, from + 1);
    }
}

/// A name is a known chord name exactly when the sorted list of names holds it.
proof fn lemma_known_names_listed()
    requires
        sorted_by(sorted_names(), lex_order()),
        sorted_names().to_multiset() == table_names().to_multiset(),
    ensures
        forall|m: Seq<char>|
            #![trigger chord_index(m)]
            chord_index(m) < chord_count() <==> sorted_names().contains(m),
{
    lemma_sorted_names_known();
    assert forall|m: Seq<char>| #![trigger chord_index(m)]
        chord_index(m) < chord_count() <==> sorted_names().contains(m) by {
        if chord_index(m) < chord_count() {
            lemma_first_chord_named_found(m, 0);
            let i = chord_index(m);
            assert(table_names()[i] == m);
            assert(table_names().contains(m));
            assert(table_names().to_multiset().contains(m));
        }
        if sorted_names().contains(m) {
            let k = choose|k: int| 0 <= k < sorted_names().len() && sorted_names()[k] == m;
            assert(chord_index(sorted_names()[k]) < chord_count());
        }
    }
}

/// The intervals of the chord named `name`, if the table has one.
fn lookup_intervals(name: &str) -> (r: Option<Vec<u8>>)
    ensures
        match r {
            Some(iv) => chord_index(name@) < chord_count() && iv@ == chord_intervals(
                chord_index(name@),
            ),
            None => chord_index(name@) == chord_count(),
        },
{
    let mut i: usize = 0;
    while i < 113
        invariant
            i <= 113,
            chord_index(name@) == first_chord_named(name@, i as int),
        decreases 113 - i,
    {
        let (entry_name, intervals) = chord_entry(i);
        if str_eq(name, entry_name) {
            return Some(intervals);
        }
        i = i + 1;
    }
    None
}

/// The message of an unknown chord name: `prefix` followed by the sorted names.
fn unknown_chord_error(prefix: &str) -> (r: String)
    ensures
        r@ == prefix@ + join_with_commas(sorted_names()),
{
    let mut e = string_of(prefix);
    let names = sorted_name_list();
    append_joined(&mut e, &names);
    e
}

// ---------------------------------------------------------------------------------------------
// Chords

/// A chord: a root note and the intervals of its notes, in keys above the root.
#[derive(Debug, Clone, PartialEq)]
pub struct Chord {
    note: Note,
    intervals: Vec<u8>,
}

/// Why a list of intervals does not make a chord, if it does not: it is empty, or one of its
/// intervals, the first such, lies outside `0..=0x7f`.
pub open spec fn chord_intervals_error(iv: Seq<i32>) -> Option<Seq<char>> {
    if iv.len() == 0 {
        Some("interval list can not be empty"@)
    } else if first_out_of_range(iv, 0) < iv.len() {
        Some(
            "interval must be in range [0..0x7f] but is '"@ + int_text(
                iv[first_out_of_range(iv, 0)] as int,
            ) + "'"@,
        )
    } else {
        None
    }
}

/// The first position, from `k` on, of an interval outside `0..=0x7f`; the length if there
/// is none.
pub open spec fn first_out_of_range(iv: Seq<i32>, k: int) -> int
    decreases iv.len() - k,
{
    if k >= iv.len() {
        iv.len() as int
    } else if !(0 <= iv[k] <= 0x7f) {
        k
    } else {
        first_out_of_range(iv, k + 1)
    }
}

/// The intervals as bytes.
pub open spec fn interval_bytes(iv: Seq<i32>) -> Seq<u8> {
    iv.map_values(|i: i32| i as u8)
}

impl Chord {
    /// The chord's root note.
    pub closed spec fn note_view(&self) -> Note {
        self.note
    }

    /// The chord's intervals.
    pub closed spec fn intervals_view(&self) -> Seq<u8> {
        self.intervals@
    }

    /// All known chord names, sorted strictly ascending (no name occurs twice).
    pub fn names() -> (r: Vec<String>)
        ensures
            string_views(r@) == sorted_names(),
            forall|k: int| 0 <= k < r@.len() ==> chord_index((#[trigger] r@[k])@) < chord_count(),
            forall|m: Seq<char>|
                #![trigger chord_index(m)]
                chord_index(m) < chord_count() <==> string_views(r@).contains(m),
            forall|i: int, j: int|
                0 <= i < j < r@.len() ==> lex_lt(#[trigger] r@[i]@, #[trigger] r@[j]@),
    {
        let names = sorted_name_list();
        let r = to_strings(&names);
        proof {
            lemma_table_names_strictly_ascending();
            assert forall|i: int, j: int| 0 <= i < j < r@.len() implies lex_lt(
                #[trigger] r@[i]@,
                #[trigger] r@[j]@,
            ) by {
                assert(string_views(r@) == table_names());
                assert(table_names().len() == chord_count());
                assert(j < chord_count());
                assert(string_views(r@)[i] == r@[i]@);
                assert(string_views(r@)[j] == r@[j]@);
                assert(lex_lt(table_names()[i], table_names()[j]));
            }
            lemma_sorted_names_known();
            lemma_known_names_listed();
            assert forall|k: int| 0 <= k < r@.len() implies chord_index((#[trigger] r@[k])@)
                < chord_count() by {
                assert(string_views(r@)[k] == r@[k]@);
            }
        }
        r
    }

    /// The known chord names that have distinct intervals, with the names starting with
    /// "dom" or "add" in addition, sorted ascending; see `is_unique_name`.
    pub fn unique_names() -> (r: Vec<String>)
        ensures
            string_views(r@) == sorted_unique_names(),
    {
        let names = unique_name_list();
        let sorted = sort_strs(&names);
        proof {
            lemma_sorted_version(str_views(sorted@), unique_names_upto(chord_count()));
        }
        to_strings(&sorted)
    }

    /// A chord of the given root note and intervals.
    pub fn new(note: Note, intervals: Vec<u8>) -> (c: Chord)
        ensures
            c.note_view() == note,
            c.intervals_view() == intervals@,
    {
        Chord { note, intervals }
    }

    /// The chord that a text of the form `$note'$chord` names, where `$note` is a note
    /// text and `$chord` one of `Chord::names()`; see `spec_parse_chord`.
    pub fn from_string(s: &str) -> (r: Result<Chord, String>)
        ensures
            chord_result_view(r) == spec_parse_chord(s@),
    {
        Chord::try_from(s)
    }

    /// The chord of the given root note whose name is `mode`, one of `Chord::names()`.
    pub fn from_mode_string(v: (Note, &str)) -> (r: Result<Chord, String>)
        ensures
            match r {
                Ok(c) => {
                    &&& chord_index(v.1@) < chord_count()
                    &&& c.note_view() == v.0
                    &&& c.intervals_view() == chord_intervals(chord_index(v.1@))
                },
                Err(e) => chord_index(v.1@) == chord_count() && e@
                    == "Invalid chord mode, valid chords are: "@ + join_with_commas(
                    sorted_names(),
                ),
            },
    {
        Chord::try_from(v)
    }

    /// Root note.
    pub fn note(&self) -> (r: Note)
        ensures
            r == self.note_view(),
    {
        self.note
    }

    /// Intervals of the chord's notes, in keys above the root note.
    pub fn intervals(&self) -> (r: &[u8])
        ensures
            r@ == self.intervals_view(),
    {
        self.intervals.as_slice()
    }
}

impl<'a> TryFrom<(Note, &'a str)> for Chord {
    type Error = String;

    /// The chord of the given root note whose name is `mode`, one of `Chord::names()`.
    fn try_from(v: (Note, &'a str)) -> (r: Result<Chord, String>)
        ensures
            match r {
                Ok(c) => {
                    &&& chord_index(v.1@) < chord_count()
                    &&& c.note_view() == v.0
                    &&& c.intervals_view() == chord_intervals(chord_index(v.1@))
                },
                Err(e) => chord_index(v.1@) == chord_count() && e@
                    == "Invalid chord mode, valid chords are: "@ + join_with_commas(
                    sorted_names(),
                ),
            },
    {
        let (note, mode) = v;
        match lookup_intervals(mode) {
            Some(intervals) => Ok(Chord::new(note, intervals)),
            None => Err(unknown_chord_error("Invalid chord mode, valid chords are: ")),
        }
    }
}

impl<'a> vstd::std_specs::convert::TryFromSpecImpl<(Note, &'a str)> for Chord {
    open spec fn obeys_try_from_spec() -> bool {
        false
    }

    open spec fn try_from_spec(v: (Note, &'a str)) -> Result<Chord, String> {
        vstd::pervasive::arbitrary()
    }
}

impl<'a> TryFrom<(Note, &'a [i32])> for Chord {
    type Error = String;

    /// The chord of the given root note and intervals, each in `0..=0x7f`.
    fn try_from(v: (Note, &'a [i32])) -> (r: Result<Chord, String>)
        ensures
            match r {
                Ok(c) => {
                    &&& chord_intervals_error(v.1@) is None
                    &&& c.note_view() == v.0
                    &&& c.intervals_view() == interval_bytes(v.1@)
                },
                Err(e) => chord_intervals_error(v.1@) == Some(e@),
            },
    {
        let note = v.0;
        let intervals = v.1;
        if intervals.len() == 0 {
            return Err(string_of("interval list can not be empty"));
        }
        let mut bytes: Vec<u8> = Vec::new();
        let mut k: usize = 0;
        while k < intervals.len()
            invariant
                intervals@ == v.1@,
                k <= intervals@.len(),
                first_out_of_range(intervals@, 0) == first_out_of_range(intervals@, k as int),
                bytes@ == interval_bytes(intervals@.subrange(0, k as int)),
            decreases intervals@.len() - k,
        {
            let i = intervals[k];
            if !(0 <= i && i <= 0x7f) {
                assert(first_out_of_range(intervals@, k as int) == k);
                let mut e = string_of("interval must be in range [0..0x7f] but is '");
                append_int(&mut e, i);
                e.append("'");
                return Err(e);
            }
            bytes.push(i as u8);
            assert(bytes@ =~= interval_bytes(intervals@.subrange(0, k + 1)));
            k = k + 1;
        }
        assert(intervals@.subrange(0, intervals@.len() as int) =~= intervals@);
        Ok(Chord::new(note, bytes))
    }
}

impl<'a> vstd::std_specs::convert::TryFromSpecImpl<(Note, &'a [i32])> for Chord {
    open spec fn obeys_try_from_spec() -> bool {
        false
    }

    open spec fn try_from_spec(v: (Note, &'a [i32])) -> Result<Chord, String> {
        vstd::pervasive::arbitrary()
    }
}

impl<'a> TryFrom<(Note, &'a Vec<i32>)> for Chord {
    type Error = String;

    /// The chord of the given root note and intervals, each in `0..=0x7f`.
    fn try_from(v: (Note, &'a Vec<i32>)) -> (r: Result<Chord, String>)
        ensures
            match r {
                Ok(c) => {
                    &&& chord_intervals_error(v.1@) is None
                    &&& c.note_view() == v.0
                    &&& c.intervals_view() == interval_bytes(v.1@)
                },
                Err(e) => chord_intervals_error(v.1@) == Some(e@),
            },
    {
        let (note, intervals) = v;
        Chord::try_from((note, intervals.as_slice()))
    }
}

impl<'a> vstd::std_specs::convert::TryFromSpecImpl<(Note, &'a Vec<i32>)> for Chord {
    open spec fn obeys_try_from_spec() -> bool {
        false
    }

    open spec fn try_from_spec(v: (Note, &'a Vec<i32>)) -> Result<Chord, String> {
        vstd::pervasive::arbitrary()
    }
}

// ---------------------------------------------------------------------------------------------
// Chords from text

/// The first position, from `from` on, of a `'` character; the length if there is none.
pub open spec fn quote_index(s: Seq<char>, from: int) -> int
    decreases s.len() - from,
{
    if from >= s.len() {
        s.len() as int
    } else if s[from] == '\'' {
        from
    } else {
        quote_index(s, from + 1)
    }
}

/// The chord, as root note and intervals, that a text `$note'$chord` names, or the error
/// message for the text.
pub open spec fn spec_parse_chord(s: Seq<char>) -> Result<(Note, Seq<u8>), Seq<char>> {
    let q = quote_index(s, 0);
    if q >= s.len() {
        Err(
            "invalid chord string: expecting a note and chord mode, separated by a ' character e.g. \"c4'maj\""@,
        )
    } else if quote_index(s, q + 1) < s.len() {
        Err("invalid chord string (found more than one ' character)"@)
    } else {
        match spec_parse_note(s.subrange(0, q)) {
            Err(e) => Err(e),
            Ok(n) => {
                let name = s.subrange(q + 1, s.len() as int);
                if chord_index(name) < chord_count() {
                    Ok((n, chord_intervals(chord_index(name))))
                } else {
                    Err("invalid chord mode, valid modes are: "@ + join_with_commas(sorted_names()))
                }
            },
        }
    }
}

/// A chord result as root note and intervals, its error message taken by its characters.
pub open spec fn chord_result_view(r: Result<Chord, String>) -> Result<(Note, Seq<u8>), Seq<char>> {
    match r {
        Ok(c) => Ok((c.note_view(), c.intervals_view())),
        Err(e) => Err(e@),
    }
}

/// The position, from `from` on, of the first `'` character; the length if there is none.
fn find_quote(s: &str, from: usize) -> (r: usize)
    requires
        from <= s@.len(),
    ensures
        r == quote_index(s@, from as int),
        from <= r <= s@.len(),
{
    let n = s.unicode_len();
    let mut i = from;
    while i < n
        invariant
            n == s@.len(),
            from <= i <= n,
            quote_index(s@, from as int) == quote_index(s@, i as int),
        decreases n - i,
    {
        if s.get_char(i) == '\'' {
            return i;
        }
        i = i + 1;
    }
    i
}

impl<'a> TryFrom<&'a str> for Chord {
    type Error = String;

    /// The chord that a text of the form `$note'$chord` names; see `spec_parse_chord`.
    fn try_from(s: &'a str) -> (r: Result<Chord, String>)
        ensures
            chord_result_view(r) == spec_parse_chord(s@),
    {
        let n = s.unicode_len();
        let q = find_quote(s, 0);
        if q >= n {
            return Err(
                string_of(
                    "invalid chord string: expecting a note and chord mode, separated by a ' character e.g. \"c4'maj\"",
                ),
            );
        }
        if find_quote(s, q + 1) < n {
            return Err(string_of("invalid chord string (found more than one ' character)"));
        }
        let note_part = s.substring_char(0, q);
        let chord_part = s.substring_char(q + 1, n);
        let note = match Note::try_from(note_part) {
            Ok(note) => note,
            Err(e) => {
                return Err(e);
            },
        };
        match lookup_intervals(chord_part) {
            Some(intervals) => Ok(Chord::new(note, intervals)),
            None => Err(unknown_chord_error("invalid chord mode, valid modes are: ")),
        }
    }
}

impl<'a> vstd::std_specs::convert::TryFromSpecImpl<&'a str> for Chord {
    open spec fn obeys_try_from_spec() -> bool {
        false
    }

    open spec fn try_from_spec(v: &'a str) -> Result<Chord, String> {
        vstd::pervasive::arbitrary()
    }
}

// ---------------------------------------------------------------------------------------------
// Laws of chord texts

proof fn lemma_quote_index_prefix(a: Seq<char>, b: Seq<char>, i: int)
    requires
        0 <= i <= a.len(),
        quote_index(a, i) == a.len(),
    ensures
        quote_index(a + b, i) == a.len() + quote_index(b, 0),
    decreases a.len() - i + b.len(),
{
    if i < a.len() {
        assert((a + b)[i] == a[i]);
        lemma_quote_index_prefix(a, b, i + 1);
    } else {
        lemma_quote_index_shift(a, b, 0);
    }
}

proof fn lemma_quote_index_shift(a: Seq<char>, b: Seq<char>, j: int)
    requires
        0 <= j <= b.len(),
    ensures
        quote_index(a + b, a.len() + j) == a.len() + quote_index(b, j),
    decreases b.len() - j,
{
    if j < b.len() {
        assert((a + b)[a.len() + j] == b[j]);
        if b[j] != '\'' {
            lemma_quote_index_shift(a, b, j + 1);
        }
    }
}

/// A chord text made of a note text and a chord name, both without `'`, joined by a `'`,
/// names the chord that the note and the name give: the text form reads as the pair form.
pub proof fn lemma_chord_text_parts(note_text: Seq<char>, name: Seq<char>)
    requires
        quote_index(note_text, 0) == note_text.len(),
        quote_index(name, 0) == name.len(),
    ensures
        spec_parse_chord(note_text + seq!['\''] + name) == match spec_parse_note(note_text) {
            Err(e) => Err(e),
            Ok(n) => if chord_index(name) < chord_count() {
                Ok((n, chord_intervals(chord_index(name))))
            } else {
                Err("invalid chord mode, valid modes are: "@ + join_with_commas(sorted_names()))
            },
        },
{
    let q = note_text.len() as int;
    let tail = seq!['\''] + name;
    let s = note_text + tail;
    assert(note_text + seq!['\''] + name =~= s);
    lemma_quote_index_prefix(note_text, tail, 0);
    assert(tail[0] == '\'');
    assert(quote_index(tail, 0) == 0);
    assert(quote_index(s, 0) == q);
    lemma_quote_index_shift(note_text, tail, 1);
    lemma_quote_index_shift(seq!['\''], name, 0);
    assert(seq!['\''] + name =~= tail);
    assert(quote_index(tail, 1) == 1 + quote_index(name, 0));
    assert(quote_index(s, q + 1) == s.len());
    assert(s.subrange(0, q) =~= note_text);
    assert(s.subrange(q + 1, s.len() as int) =~= name);
}

// ---------------------------------------------------------------------------------------------
// Laws of the major and minor chord names

/// The spellings of "major" that the chord names use: `M`, `^`, `maj` and `major`.
pub open spec fn is_major_spelling(p: Seq<char>) -> bool {
    p == "M"@ || p == "^"@ || p == "maj"@ || p == "major"@
}

/// The spellings of "minor" that the chord names use: `-`, `m`, `min` and `minor`.
pub open spec fn is_minor_spelling(p: Seq<char>) -> bool {
    p == "-"@ || p == "m"@ || p == "min"@ || p == "minor"@
}

/// What may follow the quality in a chord name: nothing, or a text that starts with a digit
/// or `#` (the extension, such as "7", "13" or "#5").
pub open spec fn is_chord_extension(s: Seq<char>) -> bool {
    s.len() == 0 || s[0] == '#' || (48 <= (s[0] as int) && (s[0] as int) <= 57)
}

/// The extensions that the table knows for major chords.
spec fn is_major_extension(s: Seq<char>) -> bool {
    s.len() == 0 || s == "7"@ || s == "9"@ || s == "11"@ || s == "13"@
}

/// Intervals of the major chord with the extension `s`.
spec fn major_chord_intervals(s: Seq<char>) -> Seq<u8> {
    if s.len() == 0 {
        seq![0, 4, 7]
    } else if s == "7"@ {
        seq![0, 4, 7, 11]
    } else if s == "9"@ {
        seq![0, 4, 7, 11, 14]
    } else if s == "11"@ {
        seq![0, 4, 7, 11, 14, 17]
    } else {
        seq![0, 4, 7, 11, 14, 21]
    }
}

proof fn lemma_name_at_most(i: int, j: int)
    requires
        0 <= i <= j < chord_count(),
    ensures
        !lex_lt(chord_name(j), chord_name(i)),
{
    lemma_lex_trichotomy(chord_name(i), chord_name(j));
    if i < j {
        lemma_table_ascending_from(i, j);
    }
}

/// Looking up the name of a table entry finds that entry.
proof fn lemma_chord_index_of(j: int)
    requires
        0 <= j < chord_count(),
    ensures
        chord_index(chord_name(j)) == j,
{
    let n = chord_name(j);
    lemma_first_chord_named(n, 0, j);
    lemma_first_chord_named_found(n, 0);
    let k = chord_index(n);
    if k < j {
        lemma_table_ascending_from(k, j);
        lemma_lex_trichotomy(n, n);
    }
}

proof fn lemma_extension_after_big_m(i: int, s: Seq<char>)
    requires
        0 <= i < chord_count(),
        chord_name(i) == "M"@ + s,
        is_chord_extension(s),
    ensures
        is_major_extension(s),
{
    reveal_strlit("M");
    reveal_strlit("7");
    reveal_strlit("9");
    reveal_strlit("11");
    reveal_strlit("13");
    let t = "M"@ + s;
    assert(t[0] == 'M');
    if i < 31 {
        lemma_name_at_most(i, 30);
        reveal_strlit("9sus4");
        assert(lex_lt(chord_name(30), t));
    } else if i > 35 {
        lemma_name_at_most(36, i);
        reveal_strlit("^");
        assert(lex_lt(t, chord_name(36)));
    } else if i == 31 {
        reveal_strlit("M");
        assert(chord_name(31) == "M"@);
        assert(s.len() == 0);
    } else if i == 32 {
        reveal_strlit("M11");
        assert(chord_name(32) == "M11"@);
        assert(s.len() == 2);
        assert(s[0] == t[1]);
        assert(s[1] == t[2]);
        assert(s =~= "11"@);
    } else if i == 33 {
        reveal_strlit("M13");
        assert(chord_name(33) == "M13"@);
        assert(s.len() == 2);
        assert(s[0] == t[1]);
        assert(s[1] == t[2]);
        assert(s =~= "13"@);
    } else if i == 34 {
        reveal_strlit("M7");
        assert(chord_name(34) == "M7"@);
        assert(s.len() == 1);
        assert(s[0] == t[1]);
        assert(s =~= "7"@);
    } else if i == 35 {
        reveal_strlit("M9");
        assert(chord_name(35) == "M9"@);
        assert(s.len() == 1);
        assert(s[0] == t[1]);
        assert(s =~= "9"@);
    }
}

proof fn lemma_extension_after_caret(i: int, s: Seq<char>)
    requires
        0 <= i < chord_count(),
        chord_name(i) == "^"@ + s,
        is_chord_extension(s),
    ensures
        is_major_extension(s),
{
    reveal_strlit("^");
    reveal_strlit("7");
    reveal_strlit("9");
    reveal_strlit("11");
    reveal_strlit("13");
    let t = "^"@ + s;
    assert(t[0] == '^');
    if i < 36 {
        lemma_name_at_most(i, 35);
        reveal_strlit("M9");
        assert(lex_lt(chord_name(35), t));
    } else if i > 40 {
        lemma_name_at_most(41, i);
        reveal_strlit("add11");
        assert(lex_lt(t, chord_name(41)));
    } else if i == 36 {
        reveal_strlit("^");
        assert(chord_name(36) == "^"@);
        assert(s.len() == 0);
    } else if i == 37 {
        reveal_strlit("^11");
        assert(chord_name(37) == "^11"@);
        assert(s.len() == 2);
        assert(s[0] == t[1]);
        assert(s[1] == t[2]);
        assert(s =~= "11"@);
    } else if i == 38 {
        reveal_strlit("^13");
        assert(chord_name(38) == "^13"@);
        assert(s.len() == 2);
        assert(s[0] == t[1]);
        assert(s[1] == t[2]);
        assert(s =~= "13"@);
    } else if i == 39 {
        reveal_strlit("^7");
        assert(chord_name(39) == "^7"@);
        assert(s.len() == 1);
        assert(s[0] == t[1]);
        assert(s =~= "7"@);
    } else if i == 40 {
        reveal_strlit("^9");
        assert(chord_name(40) == "^9"@);
        assert(s.len() == 1);
        assert(s[0] == t[1]);
        assert(s =~= "9"@);
    }
}

proof fn lemma_extension_after_maj(i: int, s: Seq<char>)
    requires
        0 <= i < chord_count(),
        chord_name(i) == "maj"@ + s,
        is_chord_extension(s),
    ensures
        is_major_extension(s),
{
    reveal_strlit("maj");
    reveal_strlit("7");
    reveal_strlit("9");
    reveal_strlit("11");
    reveal_strlit("13");
    let t = "maj"@ + s;
    assert(t[0] == 'm');
    assert(t[1] == 'a');
    if i < 69 {
        lemma_name_at_most(i, 68);
        reveal_strlit("mM7");
        assert(lex_lt(chord_name(68).drop_first(), t.drop_first()));
        assert(lex_lt(chord_name(68), t));
    } else if i > 78 {
        lemma_name_at_most(79, i);
        reveal_strlit("min");
        assert(lex_lt(t.drop_first(), chord_name(79).drop_first()));
        assert(lex_lt(t, chord_name(79)));
    } else if i == 69 {
        reveal_strlit("maj");
        assert(chord_name(69) == "maj"@);
        assert(s.len() == 0);
    } else if i == 70 {
        reveal_strlit("maj11");
        assert(chord_name(70) == "maj11"@);
        assert(s.len() == 2);
        assert(s[0] == t[3]);
        assert(s[1] == t[4]);
        assert(s =~= "11"@);
    } else if i == 71 {
        reveal_strlit("maj13");
        assert(chord_name(71) == "maj13"@);
        assert(s.len() == 2);
        assert(s[0] == t[3]);
        assert(s[1] == t[4]);
        assert(s =~= "13"@);
    } else if i == 72 {
        reveal_strlit("maj7");
        assert(chord_name(72) == "maj7"@);
        assert(s.len() == 1);
        assert(s[0] == t[3]);
        assert(s =~= "7"@);
    } else if i == 73 {
        reveal_strlit("maj9");
        assert(chord_name(73) == "maj9"@);
        assert(s.len() == 1);
        assert(s[0] == t[3]);
        assert(s =~= "9"@);
    } else if i == 74 {
        reveal_strlit("major");
        assert(chord_name(74) == "major"@);
        assert(t[3] == s[0]);
    } else if i == 75 {
        reveal_strlit("major11");
        assert(chord_name(75) == "major11"@);
        assert(t[3] == s[0]);
    } else if i == 76 {
        reveal_strlit("major13");
        assert(chord_name(76) == "major13"@);
        assert(t[3] == s[0]);
    } else if i == 77 {
        reveal_strlit("major7");
        assert(chord_name(77) == "major7"@);
        assert(t[3] == s[0]);
    } else if i == 78 {
        reveal_strlit("major9");
        assert(chord_name(78) == "major9"@);
        assert(t[3] == s[0]);
    }
}

proof fn lemma_extension_after_major(i: int, s: Seq<char>)
    requires
        0 <= i < chord_count(),
        chord_name(i) == "major"@ + s,
        is_chord_extension(s),
    ensures
        is_major_extension(s),
{
    reveal_strlit("major");
    reveal_strlit("7");
    reveal_strlit("9");
    reveal_strlit("11");
    reveal_strlit("13");
    let t = "major"@ + s;
    assert(t[0] == 'm');
    assert(t[1] == 'a');
    if i < 69 {
        lemma_name_at_most(i, 68);
        reveal_strlit("mM7");
        assert(lex_lt(chord_name(68).drop_first(), t.drop_first()));
        assert(lex_lt(chord_name(68), t));
    } else if i > 78 {
        lemma_name_at_most(79, i);
        reveal_strlit("min");
        assert(lex_lt(t.drop_first(), chord_name(79).drop_first()));
        assert(lex_lt(t, chord_name(79)));
    } else if i == 69 {
        reveal_strlit("maj");
        assert(chord_name(69) == "maj"@);
        assert(t.len() >= 5);
    } else if i == 70 {
        reveal_strlit("maj11");
        assert(chord_name(70) == "maj11"@);
        assert(t[3] == "major"@[3]);
    } else if i == 71 {
        reveal_strlit("maj13");
        assert(chord_name(71) == "maj13"@);
        assert(t[3] == "major"@[3]);
    } else if i == 72 {
        reveal_strlit("maj7");
        assert(chord_name(72) == "maj7"@);
        assert(t.len() >= 5);
    } else if i == 73 {
        reveal_strlit("maj9");
        assert(chord_name(73) == "maj9"@);
        assert(t.len() >= 5);
    } else if i == 74 {
        reveal_strlit("major");
        assert(chord_name(74) == "major"@);
        assert(s.len() == 0);
    } else if i == 75 {
        reveal_strlit("major11");
        assert(chord_name(75) == "major11"@);
        assert(s.len() == 2);
        assert(s[0] == t[5]);
        assert(s[1] == t[6]);
        assert(s =~= "11"@);
    } else if i == 76 {
        reveal_strlit("major13");
        assert(chord_name(76) == "major13"@);
        assert(s.len() == 2);
        assert(s[0] == t[5]);
        assert(s[1] == t[6]);
        assert(s =~= "13"@);
    } else if i == 77 {
        reveal_strlit("major7");
        assert(chord_name(77) == "major7"@);
        assert(s.len() == 1);
        assert(s[0] == t[5]);
        assert(s =~= "7"@);
    } else if i == 78 {
        reveal_strlit("major9");
        assert(chord_name(78) == "major9"@);
        assert(s.len() == 1);
        assert(s[0] == t[5]);
        assert(s =~= "9"@);
    }
}


/// A known name made of a spelling of "major" and an extension has one of the major
/// extensions.
proof fn lemma_major_extension(p: Seq<char>, s: Seq<char>)
    requires
        is_major_spelling(p),
        is_chord_extension(s),
        chord_index(p + s) < chord_count(),
    ensures
        is_major_extension(s),
{
    lemma_first_chord_named_found(p + s, 0);
    let i = chord_index(p + s);
    if p == "M"@ {
        lemma_extension_after_big_m(i, s);
    } else if p == "^"@ {
        lemma_extension_after_caret(i, s);
    } else if p == "maj"@ {
        lemma_extension_after_maj(i, s);
    } else {
        lemma_extension_after_major(i, s);
    }
}

/// The entry of the major chord spelled `q` with the extension `s`.
proof fn lemma_major_entry(q: Seq<char>, s: Seq<char>) -> (j: int)
    requires
        is_major_spelling(q),
        is_major_extension(s),
    ensures
        0 <= j < chord_count(),
        chord_index(q + s) == j,
        chord_intervals(j) == major_chord_intervals(s),
{
    reveal_strlit("M");
    reveal_strlit("^");
    reveal_strlit("maj");
    reveal_strlit("major");
    reveal_strlit("7");
    reveal_strlit("9");
    reveal_strlit("11");
    reveal_strlit("13");
    if q == "M"@ && s.len() == 0 {
        reveal_strlit("M");
        assert(q + s =~= chord_name(31));
        lemma_chord_index_of(31);
        31
    } else if q == "M"@ && s == "7"@ {
        reveal_strlit("M7");
        assert(q + s =~= chord_name(34));
        lemma_chord_index_of(34);
        34
    } else if q == "M"@ && s == "9"@ {
        reveal_strlit("M9");
        assert(q + s =~= chord_name(35));
        lemma_chord_index_of(35);
        35
    } else if q == "M"@ && s == "11"@ {
        reveal_strlit("M11");
        assert(q + s =~= chord_name(32));
        lemma_chord_index_of(32);
        32
    } else if q == "M"@ && s == "13"@ {
        reveal_strlit("M13");
        assert(q + s =~= chord_name(33));
        lemma_chord_index_of(33);
        33
    } else if q == "^"@ && s.len() == 0 {
        reveal_strlit("^");
        assert(q + s =~= chord_name(36));
        lemma_chord_index_of(36);
        36
    } else if q == "^"@ && s == "7"@ {
        reveal_strlit("^7");
        assert(q + s =~= chord_name(39));
        lemma_chord_index_of(39);
        39
    } else if q == "^"@ && s == "9"@ {
        reveal_strlit("^9");
        assert(q + s =~= chord_name(40));
        lemma_chord_index_of(40);
        40
    } else if q == "^"@ && s == "11"@ {
        reveal_strlit("^11");
        assert(q + s =~= chord_name(37));
        lemma_chord_index_of(37);
        37
    } else if q == "^"@ && s == "13"@ {
        reveal_strlit("^13");
        assert(q + s =~= chord_name(38));
        lemma_chord_index_of(38);
        38
    } else if q == "maj"@ && s.len() == 0 {
        reveal_strlit("maj");
        assert(q + s =~= chord_name(69));
        lemma_chord_index_of(69);
        69
    } else if q == "maj"@ && s == "7"@ {
        reveal_strlit("maj7");
        assert(q + s =~= chord_name(72));
        lemma_chord_index_of(72);
        72
    } else if q == "maj"@ && s == "9"@ {
        reveal_strlit("maj9");
        assert(q + s =~= chord_name(73));
        lemma_chord_index_of(73);
        73
    } else if q == "maj"@ && s == "11"@ {
        reveal_strlit("maj11");
        assert(q + s =~= chord_name(70));
        lemma_chord_index_of(70);
        70
    } else if q == "maj"@ && s == "13"@ {
        reveal_strlit("maj13");
        assert(q + s =~= chord_name(71));
        lemma_chord_index_of(71);
        71
    } else if q == "major"@ && s.len() == 0 {
        reveal_strlit("major");
        assert(q + s =~= chord_name(74));
        lemma_chord_index_of(74);
        74
    } else if q == "major"@ && s == "7"@ {
        reveal_strlit("major7");
        assert(q + s =~= chord_name(77));
        lemma_chord_index_of(77);
        77
    } else if q == "major"@ && s == "9"@ {
        reveal_strlit("major9");
        assert(q + s =~= chord_name(78));
        lemma_chord_index_of(78);
        78
    } else if q == "major"@ && s == "11"@ {
        reveal_strlit("major11");
        assert(q + s =~= chord_name(75));
        lemma_chord_index_of(75);
        75
    } else if q == "major"@ && s == "13"@ {
        reveal_strlit("major13");
        assert(q + s =~= chord_name(76));
        lemma_chord_index_of(76);
        76
    } else {
        0
    }

}

/// Names of one chord share one interval list: a major chord can be spelled "M", "^", "maj"
/// or "major", followed by the same extension ("", "7", "9", "11", "13"). Whenever the table
/// knows a name in one spelling, it knows the name in every other spelling, and all of them
/// have the same intervals.
pub proof fn lemma_major_spellings_agree(p: Seq<char>, q: Seq<char>, s: Seq<char>)
    requires
        is_major_spelling(p),
        is_major_spelling(q),
        is_chord_extension(s),
        chord_index(p + s) < chord_count(),
    ensures
        chord_index(q + s) < chord_count(),
        chord_intervals(chord_index(q + s)) == chord_intervals(chord_index(p + s)),
{
    lemma_major_extension(p, s);
    lemma_major_entry(p, s);
    lemma_major_entry(q, s);
}

/// Every major chord of the table is a major triad (root, major third, fifth) with its
/// extensions on top, and an extended major chord has a major seventh (11 semitones), never
/// a minor one (10 semitones).
pub proof fn lemma_major_chords_have_major_sevenths(p: Seq<char>, s: Seq<char>)
    requires
        is_major_spelling(p),
        is_chord_extension(s),
        chord_index(p + s) < chord_count(),
    ensures
        chord_intervals(chord_index(p + s)).len() >= 3,
        chord_intervals(chord_index(p + s)).subrange(0, 3) == seq![0u8, 4, 7],
        s.len() > 0 ==> chord_intervals(chord_index(p + s)).len() >= 4 && chord_intervals(
            chord_index(p + s),
        )[3] == 11 && !chord_intervals(chord_index(p + s)).contains(10u8),
{
    lemma_major_extension(p, s);
    lemma_major_entry(p, s);
    let iv = chord_intervals(chord_index(p + s));
    assert(iv.subrange(0, 3) =~= seq![0u8, 4, 7]);
    assert forall|k: int| 0 <= k < iv.len() implies iv[k] != 10u8 by {}
}

/// The major seventh chord, in each spelling ("M7", "^7", "maj7", "major7"), is known and
/// has the intervals 0, 4, 7 and 11: root, major third, fifth and major seventh.
pub proof fn lemma_major_seventh_chords(p: Seq<char>)
    requires
        is_major_spelling(p),
    ensures
        chord_index(p + "7"@) < chord_count(),
        chord_intervals(chord_index(p + "7"@)) == seq![0u8, 4, 7, 11],
{
    reveal_strlit("7");
    lemma_major_entry(p, "7"@);
}

/// The extensions that the table knows for minor chords.
spec fn is_minor_extension(s: Seq<char>) -> bool {
    ||| s.len() == 0
    ||| s == "#5"@
    ||| s == "11"@
    ||| s == "13"@
    ||| s == "6"@
    ||| s == "69"@
    ||| s == "7"@
    ||| s == "7#5"@
    ||| s == "7#9"@
    ||| s == "7b5"@
    ||| s == "7b9"@
    ||| s == "9"@
}

/// Intervals of the minor chord with the extension `s`.
spec fn minor_chord_intervals(s: Seq<char>) -> Seq<u8> {
    if s.len() == 0 {
        seq![0, 3, 7]
    } else if s == "#5"@ {
        seq![0, 3, 8]
    } else if s == "11"@ {
        seq![0, 3, 7, 10, 14, 17]
    } else if s == "13"@ {
        seq![0, 3, 7, 10, 14, 17, 21]
    } else if s == "6"@ {
        seq![0, 3, 7, 9]
    } else if s == "69"@ {
        seq![0, 3, 9, 7, 14]
    } else if s == "7"@ {
        seq![0, 3, 7, 10]
    } else if s == "7#5"@ {
        seq![0, 3, 8, 10]
    } else if s == "7#9"@ {
        seq![0, 3, 7, 10, 14]
    } else if s == "7b5"@ {
        seq![0, 3, 6, 10]
    } else if s == "7b9"@ {
        seq![0, 3, 7, 10, 13]
    } else {
        seq![0, 3, 7, 10, 14]
    }
}

proof fn lemma_minor_extension_after_dash(i: int, s: Seq<char>)
    requires
        0 <= i < chord_count(),
        chord_name(i) == "-"@ + s,
        is_chord_extension(s),
    ensures
        is_minor_extension(s),
{
    reveal_strlit("-");
    reveal_strlit("#5");
    reveal_strlit("11");
    reveal_strlit("13");
    reveal_strlit("6");
    reveal_strlit("69");
    reveal_strlit("7");
    reveal_strlit("7#5");
    reveal_strlit("7#9");
    reveal_strlit("7b5");
    reveal_strlit("7b9");
    reveal_strlit("9");
    let t = "-"@ + s;
    assert(t[0] == '-');
    if i < 4 {
        lemma_name_at_most(i, 3);
        reveal_strlit("+9");
        assert(lex_lt(chord_name(3), t));
    } else if i > 16 {
        lemma_name_at_most(17, i);
        reveal_strlit("11");
        assert(lex_lt(t, chord_name(17)));
    } else if i == 4 {
        reveal_strlit("-");
        assert(chord_name(4) == "-"@);
        assert(s.len() == 0);
    } else if i == 5 {
        reveal_strlit("-#5");
        assert(chord_name(5) == "-#5"@);
        assert(s.len() == 2);
        assert(s[0] == t[1]);
        assert(s[1] == t[2]);
        assert(s =~= "#5"@);
    } else if i == 6 {
        reveal_strlit("-11");
        assert(chord_name(6) == "-11"@);
        assert(s.len() == 2);
        assert(s[0] == t[1]);
        assert(s[1] == t[2]);
        assert(s =~= "11"@);
    } else if i == 7 {
        reveal_strlit("-13");
        assert(chord_name(7) == "-13"@);
        assert(s.len() == 2);
        assert(s[0] == t[1]);
        assert(s[1] == t[2]);
        assert(s =~= "13"@);
    } else if i == 8 {
        reveal_strlit("-6");
        assert(chord_name(8) == "-6"@);
        assert(s.len() == 1);
        assert(s[0] == t[1]);
        assert(s =~= "6"@);
    } else if i == 9 {
        reveal_strlit("-69");
        assert(chord_name(9) == "-69"@);
        assert(s.len() == 2);
        assert(s[0] == t[1]);
        assert(s[1] == t[2]);
        assert(s =~= "69"@);
    } else if i == 10 {
        reveal_strlit("-7");
        assert(chord_name(10) == "-7"@);
        assert(s.len() == 1);
        assert(s[0] == t[1]);
        assert(s =~= "7"@);
    } else if i == 11 {
        reveal_strlit("-7#5");
        assert(chord_name(11) == "-7#5"@);
        assert(s.len() == 3);
        assert(s[0] == t[1]);
        assert(s[1] == t[2]);
        assert(s[2] == t[3]);
        assert(s =~= "7#5"@);
    } else if i == 12 {
        reveal_strlit("-7#9");
        assert(chord_name(12) == "-7#9"@);
        assert(s.len() == 3);
        assert(s[0] == t[1]);
        assert(s[1] == t[2]);
        assert(s[2] == t[3]);
        assert(s =~= "7#9"@);
    } else if i == 13 {
        reveal_strlit("-7b5");
        assert(chord_name(13) == "-7b5"@);
        assert(s.len() == 3);
        assert(s[0] == t[1]);
        assert(s[1] == t[2]);
        assert(s[2] == t[3]);
        assert(s =~= "7b5"@);
    } else if i == 14 {
        reveal_strlit("-7b9");
        assert(chord_name(14) == "-7b9"@);
        assert(s.len() == 3);
        assert(s[0] == t[1]);
        assert(s[1] == t[2]);
        assert(s[2] == t[3]);
        assert(s =~= "7b9"@);
    } else if i == 15 {
        reveal_strlit("-9");
        assert(chord_name(15) == "-9"@);
        assert(s.len() == 1);
        assert(s[0] == t[1]);
        assert(s =~= "9"@);
    } else if i == 16 {
        reveal_strlit("-^7");
        assert(chord_name(16) == "-^7"@);
        assert(t[1] == s[0]);
    }
}

proof fn lemma_minor_extension_after_m(i: int, s: Seq<char>)
    requires
        0 <= i < chord_count(),
        chord_name(i) == "m"@ + s,
        is_chord_extension(s),
    ensures
        is_minor_extension(s),
{
    reveal_strlit("m");
    reveal_strlit("#5");
    reveal_strlit("11");
    reveal_strlit("13");
    reveal_strlit("6");
    reveal_strlit("69");
    reveal_strlit("7");
    reveal_strlit("7#5");
    reveal_strlit("7#9");
    reveal_strlit("7b5");
    reveal_strlit("7b9");
    reveal_strlit("9");
    let t = "m"@ + s;
    assert(t[0] == 'm');
    if i < 56 {
        lemma_name_at_most(i, 55);
        reveal_strlit("five");
        assert(lex_lt(chord_name(55), t));
    } else if i > 104 {
        lemma_name_at_most(105, i);
        reveal_strlit("nine");
        assert(lex_lt(t, chord_name(105)));
    } else if i == 56 {
        reveal_strlit("m");
        assert(chord_name(56) == "m"@);
        assert(s.len() == 0);
    } else if i == 57 {
        reveal_strlit("m#5");
        assert(chord_name(57) == "m#5"@);
        assert(s.len() == 2);
        assert(s[0] == t[1]);
        assert(s[1] == t[2]);
        assert(s =~= "#5"@);
    } else if i == 58 {
        reveal_strlit("m11");
        assert(chord_name(58) == "m11"@);
        assert(s.len() == 2);
        assert(s[0] == t[1]);
        assert(s[1] == t[2]);
        assert(s =~= "11"@);
    } else if i == 59 {
        reveal_strlit("m13");
        assert(chord_name(59) == "m13"@);
        assert(s.len() == 2);
        assert(s[0] == t[1]);
        assert(s[1] == t[2]);
        assert(s =~= "13"@);
    } else if i == 60 {
        reveal_strlit("m6");
        assert(chord_name(60) == "m6"@);
        assert(s.len() == 1);
        assert(s[0] == t[1]);
        assert(s =~= "6"@);
    } else if i == 61 {
        reveal_strlit("m69");
        assert(chord_name(61) == "m69"@);
        assert(s.len() == 2);
        assert(s[0] == t[1]);
        assert(s[1] == t[2]);
        assert(s =~= "69"@);
    } else if i == 62 {
        reveal_strlit("m7");
        assert(chord_name(62) == "m7"@);
        assert(s.len() == 1);
        assert(s[0] == t[1]);
        assert(s =~= "7"@);
    } else if i == 63 {
        reveal_strlit("m7#5");
        assert(chord_name(63) == "m7#5"@);
        assert(s.len() == 3);
        assert(s[0] == t[1]);
        assert(s[1] == t[2]);
        assert(s[2] == t[3]);
        assert(s =~= "7#5"@);
    } else if i == 64 {
        reveal_strlit("m7#9");
        assert(chord_name(64) == "m7#9"@);
        assert(s.len() == 3);
        assert(s[0] == t[1]);
        assert(s[1] == t[2]);
        assert(s[2] == t[3]);
        assert(s =~= "7#9"@);
    } else if i == 65 {
        reveal_strlit("m7b5");
        assert(chord_name(65) == "m7b5"@);
        assert(s.len() == 3);
        assert(s[0] == t[1]);
        assert(s[1] == t[2]);
        assert(s[2] == t[3]);
        assert(s =~= "7b5"@);
    } else if i == 66 {
        reveal_strlit("m7b9");
        assert(chord_name(66) == "m7b9"@);
        assert(s.len() == 3);
        assert(s[0] == t[1]);
        assert(s[1] == t[2]);
        assert(s[2] == t[3]);
        assert(s =~= "7b9"@);
    } else if i == 67 {
        reveal_strlit("m9");
        assert(chord_name(67) == "m9"@);
        assert(s.len() == 1);
        assert(s[0] == t[1]);
        assert(s =~= "9"@);
    } else if i == 68 {
        reveal_strlit("mM7");
        assert(chord_name(68) == "mM7"@);
        assert(t[1] == s[0]);
    } else if i == 69 {
        reveal_strlit("maj");
        assert(chord_name(69) == "maj"@);
        assert(t[1] == s[0]);
    } else if i == 70 {
        reveal_strlit("maj11");
        assert(chord_name(70) == "maj11"@);
        assert(t[1] == s[0]);
    } else if i == 71 {
        reveal_strlit("maj13");
        assert(chord_name(71) == "maj13"@);
        assert(t[1] == s[0]);
    } else if i == 72 {
        reveal_strlit("maj7");
        assert(chord_name(72) == "maj7"@);
        assert(t[1] == s[0]);
    } else if i == 73 {
        reveal_strlit("maj9");
        assert(chord_name(73) == "maj9"@);
        assert(t[1] == s[0]);
    } else if i == 74 {
        reveal_strlit("major");
        assert(chord_name(74) == "major"@);
        assert(t[1] == s[0]);
    } else if i == 75 {
        reveal_strlit("major11");
        assert(chord_name(75) == "major11"@);
        assert(t[1] == s[0]);
    } else if i == 76 {
        reveal_strlit("major13");
        assert(chord_name(76) == "major13"@);
        assert(t[1] == s[0]);
    } else if i == 77 {
        reveal_strlit("major7");
        assert(chord_name(77) == "major7"@);
        assert(t[1] == s[0]);
    } else if i == 78 {
        reveal_strlit("major9");
        assert(chord_name(78) == "major9"@);
        assert(t[1] == s[0]);
    } else if i == 79 {
        reveal_strlit("min");
        assert(chord_name(79) == "min"@);
        assert(t[1] == s[0]);
    } else if i == 80 {
        reveal_strlit("min#5");
        assert(chord_name(80) == "min#5"@);
        assert(t[1] == s[0]);
    } else if i == 81 {
        reveal_strlit("min11");
        assert(chord_name(81) == "min11"@);
        assert(t[1] == s[0]);
    } else if i == 82 {
        reveal_strlit("min13");
        assert(chord_name(82) == "min13"@);
        assert(t[1] == s[0]);
    } else if i == 83 {
        reveal_strlit("min6");
        assert(chord_name(83) == "min6"@);
        assert(t[1] == s[0]);
    } else if i == 84 {
        reveal_strlit("min69");
        assert(chord_name(84) == "min69"@);
        assert(t[1] == s[0]);
    } else if i == 85 {
        reveal_strlit("min7");
        assert(chord_name(85) == "min7"@);
        assert(t[1] == s[0]);
    } else if i == 86 {
        reveal_strlit("min7#5");
        assert(chord_name(86) == "min7#5"@);
        assert(t[1] == s[0]);
    } else if i == 87 {
        reveal_strlit("min7#9");
        assert(chord_name(87) == "min7#9"@);
        assert(t[1] == s[0]);
    } else if i == 88 {
        reveal_strlit("min7b5");
        assert(chord_name(88) == "min7b5"@);
        assert(t[1] == s[0]);
    } else if i == 89 {
        reveal_strlit("min7b9");
        assert(chord_name(89) == "min7b9"@);
        assert(t[1] == s[0]);
    } else if i == 90 {
        reveal_strlit("min9");
        assert(chord_name(90) == "min9"@);
        assert(t[1] == s[0]);
    } else if i == 91 {
        reveal_strlit("minMaj7");
        assert(chord_name(91) == "minMaj7"@);
        assert(t[1] == s[0]);
    } else if i == 92 {
        reveal_strlit("minor");
        assert(chord_name(92) == "minor"@);
        assert(t[1] == s[0]);
    } else if i == 93 {
        reveal_strlit("minor#5");
        assert(chord_name(93) == "minor#5"@);
        assert(t[1] == s[0]);
    } else if i == 94 {
        reveal_strlit("minor11");
        assert(chord_name(94) == "minor11"@);
        assert(t[1] == s[0]);
    } else if i == 95 {
        reveal_strlit("minor13");
        assert(chord_name(95) == "minor13"@);
        assert(t[1] == s[0]);
    } else if i == 96 {
        reveal_strlit("minor6");
        assert(chord_name(96) == "minor6"@);
        assert(t[1] == s[0]);
    } else if i == 97 {
        reveal_strlit("minor69");
        assert(chord_name(97) == "minor69"@);
        assert(t[1] == s[0]);
    } else if i == 98 {
        reveal_strlit("minor7");
        assert(chord_name(98) == "minor7"@);
        assert(t[1] == s[0]);
    } else if i == 99 {
        reveal_strlit("minor7#5");
        assert(chord_name(99) == "minor7#5"@);
        assert(t[1] == s[0]);
    } else if i == 100 {
        reveal_strlit("minor7#9");
        assert(chord_name(100) == "minor7#9"@);
        assert(t[1] == s[0]);
    } else if i == 101 {
        reveal_strlit("minor7b5");
        assert(chord_name(101) == "minor7b5"@);
        assert(t[1] == s[0]);
    } else if i == 102 {
        reveal_strlit("minor7b9");
        assert(chord_name(102) == "minor7b9"@);
        assert(t[1] == s[0]);
    } else if i == 103 {
        reveal_strlit("minor9");
        assert(chord_name(103) == "minor9"@);
        assert(t[1] == s[0]);
    } else if i == 104 {
        reveal_strlit("minorMajor7");
        assert(chord_name(104) == "minorMajor7"@);
        assert(t[1] == s[0]);
    }
}

proof fn lemma_minor_extension_after_min(i: int, s: Seq<char>)
    requires
        0 <= i < chord_count(),
        chord_name(i) == "min"@ + s,
        is_chord_extension(s),
    ensures
        is_minor_extension(s),
{
    reveal_strlit("min");
    reveal_strlit("#5");
    reveal_strlit("11");
    reveal_strlit("13");
    reveal_strlit("6");
    reveal_strlit("69");
    reveal_strlit("7");
    reveal_strlit("7#5");
    reveal_strlit("7#9");
    reveal_strlit("7b5");
    reveal_strlit("7b9");
    reveal_strlit("9");
    let t = "min"@ + s;
    assert(t[0] == 'm');
    assert(t[1] == 'i');
    if i < 79 {
        lemma_name_at_most(i, 78);
        reveal_strlit("major9");
        assert(lex_lt(chord_name(78).drop_first(), t.drop_first()));
        assert(lex_lt(chord_name(78), t));
    } else if i > 104 {
        lemma_name_at_most(105, i);
        reveal_strlit("nine");
        assert(lex_lt(t, chord_name(105)));
    } else if i == 79 {
        reveal_strlit("min");
        assert(chord_name(79) == "min"@);
        assert(s.len() == 0);
    } else if i == 80 {
        reveal_strlit("min#5");
        assert(chord_name(80) == "min#5"@);
        assert(s.len() == 2);
        assert(s[0] == t[3]);
        assert(s[1] == t[4]);
        assert(s =~= "#5"@);
    } else if i == 81 {
        reveal_strlit("min11");
        assert(chord_name(81) == "min11"@);
        assert(s.len() == 2);
        assert(s[0] == t[3]);
        assert(s[1] == t[4]);
        assert(s =~= "11"@);
    } else if i == 82 {
        reveal_strlit("min13");
        assert(chord_name(82) == "min13"@);
        assert(s.len() == 2);
        assert(s[0] == t[3]);
        assert(s[1] == t[4]);
        assert(s =~= "13"@);
    } else if i == 83 {
        reveal_strlit("min6");
        assert(chord_name(83) == "min6"@);
        assert(s.len() == 1);
        assert(s[0] == t[3]);
        assert(s =~= "6"@);
    } else if i == 84 {
        reveal_strlit("min69");
        assert(chord_name(84) == "min69"@);
        assert(s.len() == 2);
        assert(s[0] == t[3]);
        assert(s[1] == t[4]);
        assert(s =~= "69"@);
    } else if i == 85 {
        reveal_strlit("min7");
        assert(chord_name(85) == "min7"@);
        assert(s.len() == 1);
        assert(s[0] == t[3]);
        assert(s =~= "7"@);
    } else if i == 86 {
        reveal_strlit("min7#5");
        assert(chord_name(86) == "min7#5"@);
        assert(s.len() == 3);
        assert(s[0] == t[3]);
        assert(s[1] == t[4]);
        assert(s[2] == t[5]);
        assert(s =~= "7#5"@);
    } else if i == 87 {
        reveal_strlit("min7#9");
        assert(chord_name(87) == "min7#9"@);
        assert(s.len() == 3);
        assert(s[0] == t[3]);
        assert(s[1] == t[4]);
        assert(s[2] == t[5]);
        assert(s =~= "7#9"@);
    } else if i == 88 {
        reveal_strlit("min7b5");
        assert(chord_name(88) == "min7b5"@);
        assert(s.len() == 3);
        assert(s[0] == t[3]);
        assert(s[1] == t[4]);
        assert(s[2] == t[5]);
        assert(s =~= "7b5"@);
    } else if i == 89 {
        reveal_strlit("min7b9");
        assert(chord_name(89) == "min7b9"@);
        assert(s.len() == 3);
        assert(s[0] == t[3]);
        assert(s[1] == t[4]);
        assert(s[2] == t[5]);
        assert(s =~= "7b9"@);
    } else if i == 90 {
        reveal_strlit("min9");
        assert(chord_name(90) == "min9"@);
        assert(s.len() == 1);
        assert(s[0] == t[3]);
        assert(s =~= "9"@);
    } else if i == 91 {
        reveal_strlit("minMaj7");
        assert(chord_name(91) == "minMaj7"@);
        assert(t[3] == s[0]);
    } else if i == 92 {
        reveal_strlit("minor");
        assert(chord_name(92) == "minor"@);
        assert(t[3] == s[0]);
    } else if i == 93 {
        reveal_strlit("minor#5");
        assert(chord_name(93) == "minor#5"@);
        assert(t[3] == s[0]);
    } else if i == 94 {
        reveal_strlit("minor11");
        assert(chord_name(94) == "minor11"@);
        assert(t[3] == s[0]);
    } else if i == 95 {
        reveal_strlit("minor13");
        assert(chord_name(95) == "minor13"@);
        assert(t[3] == s[0]);
    } else if i == 96 {
        reveal_strlit("minor6");
        assert(chord_name(96) == "minor6"@);
        assert(t[3] == s[0]);
    } else if i == 97 {
        reveal_strlit("minor69");
        assert(chord_name(97) == "minor69"@);
        assert(t[3] == s[0]);
    } else if i == 98 {
        reveal_strlit("minor7");
        assert(chord_name(98) == "minor7"@);
        assert(t[3] == s[0]);
    } else if i == 99 {
        reveal_strlit("minor7#5");
        assert(chord_name(99) == "minor7#5"@);
        assert(t[3] == s[0]);
    } else if i == 100 {
        reveal_strlit("minor7#9");
        assert(chord_name(100) == "minor7#9"@);
        assert(t[3] == s[0]);
    } else if i == 101 {
        reveal_strlit("minor7b5");
        assert(chord_name(101) == "minor7b5"@);
        assert(t[3] == s[0]);
    } else if i == 102 {
        reveal_strlit("minor7b9");
        assert(chord_name(102) == "minor7b9"@);
        assert(t[3] == s[0]);
    } else if i == 103 {
        reveal_strlit("minor9");
        assert(chord_name(103) == "minor9"@);
        assert(t[3] == s[0]);
    } else if i == 104 {
        reveal_strlit("minorMajor7");
        assert(chord_name(104) == "minorMajor7"@);
        assert(t[3] == s[0]);
    }
}

proof fn lemma_minor_extension_after_minor(i: int, s: Seq<char>)
    requires
        0 <= i < chord_count(),
        chord_name(i) == "minor"@ + s,
        is_chord_extension(s),
    ensures
        is_minor_extension(s),
{
    reveal_strlit("minor");
    reveal_strlit("#5");
    reveal_strlit("11");
    reveal_strlit("13");
    reveal_strlit("6");
    reveal_strlit("69");
    reveal_strlit("7");
    reveal_strlit("7#5");
    reveal_strlit("7#9");
    reveal_strlit("7b5");
    reveal_strlit("7b9");
    reveal_strlit("9");
    let t = "minor"@ + s;
    assert(t[0] == 'm');
    assert(t[1] == 'i');
    if i < 79 {
        lemma_name_at_most(i, 78);
        reveal_strlit("major9");
        assert(lex_lt(chord_name(78).drop_first(), t.drop_first()));
        assert(lex_lt(chord_name(78), t));
    } else if i > 104 {
        lemma_name_at_most(105, i);
        reveal_strlit("nine");
        assert(lex_lt(t, chord_name(105)));
    } else if i == 79 {
        reveal_strlit("min");
        assert(chord_name(79) == "min"@);
        assert(t.len() >= 5);
    } else if i == 80 {
        reveal_strlit("min#5");
        assert(chord_name(80) == "min#5"@);
        assert(t[3] == "minor"@[3]);
    } else if i == 81 {
        reveal_strlit("min11");
        assert(chord_name(81) == "min11"@);
        assert(t[3] == "minor"@[3]);
    } else if i == 82 {
        reveal_strlit("min13");
        assert(chord_name(82) == "min13"@);
        assert(t[3] == "minor"@[3]);
    } else if i == 83 {
        reveal_strlit("min6");
        assert(chord_name(83) == "min6"@);
        assert(t.len() >= 5);
    } else if i == 84 {
        reveal_strlit("min69");
        assert(chord_name(84) == "min69"@);
        assert(t[3] == "minor"@[3]);
    } else if i == 85 {
        reveal_strlit("min7");
        assert(chord_name(85) == "min7"@);
        assert(t.len() >= 5);
    } else if i == 86 {
        reveal_strlit("min7#5");
        assert(chord_name(86) == "min7#5"@);
        assert(t[3] == "minor"@[3]);
    } else if i == 87 {
        reveal_strlit("min7#9");
        assert(chord_name(87) == "min7#9"@);
        assert(t[3] == "minor"@[3]);
    } else if i == 88 {
        reveal_strlit("min7b5");
        assert(chord_name(88) == "min7b5"@);
        assert(t[3] == "minor"@[3]);
    } else if i == 89 {
        reveal_strlit("min7b9");
        assert(chord_name(89) == "min7b9"@);
        assert(t[3] == "minor"@[3]);
    } else if i == 90 {
        reveal_strlit("min9");
        assert(chord_name(90) == "min9"@);
        assert(t.len() >= 5);
    } else if i == 91 {
        reveal_strlit("minMaj7");
        assert(chord_name(91) == "minMaj7"@);
        assert(t[3] == "minor"@[3]);
    } else if i == 92 {
        reveal_strlit("minor");
        assert(chord_name(92) == "minor"@);
        assert(s.len() == 0);
    } else if i == 93 {
        reveal_strlit("minor#5");
        assert(chord_name(93) == "minor#5"@);
        assert(s.len() == 2);
        assert(s[0] == t[5]);
        assert(s[1] == t[6]);
        assert(s =~= "#5"@);
    } else if i == 94 {
        reveal_strlit("minor11");
        assert(chord_name(94) == "minor11"@);
        assert(s.len() == 2);
        assert(s[0] == t[5]);
        assert(s[1] == t[6]);
        assert(s =~= "11"@);
    } else if i == 95 {
        reveal_strlit("minor13");
        assert(chord_name(95) == "minor13"@);
        assert(s.len() == 2);
        assert(s[0] == t[5]);
        assert(s[1] == t[6]);
        assert(s =~= "13"@);
    } else if i == 96 {
        reveal_strlit("minor6");
        assert(chord_name(96) == "minor6"@);
        assert(s.len() == 1);
        assert(s[0] == t[5]);
        assert(s =~= "6"@);
    } else if i == 97 {
        reveal_strlit("minor69");
        assert(chord_name(97) == "minor69"@);
        assert(s.len() == 2);
        assert(s[0] == t[5]);
        assert(s[1] == t[6]);
        assert(s =~= "69"@);
    } else if i == 98 {
        reveal_strlit("minor7");
        assert(chord_name(98) == "minor7"@);
        assert(s.len() == 1);
        assert(s[0] == t[5]);
        assert(s =~= "7"@);
    } else if i == 99 {
        reveal_strlit("minor7#5");
        assert(chord_name(99) == "minor7#5"@);
        assert(s.len() == 3);
        assert(s[0] == t[5]);
        assert(s[1] == t[6]);
        assert(s[2] == t[7]);
        assert(s =~= "7#5"@);
    } else if i == 100 {
        reveal_strlit("minor7#9");
        assert(chord_name(100) == "minor7#9"@);
        assert(s.len() == 3);
        assert(s[0] == t[5]);
        assert(s[1] == t[6]);
        assert(s[2] == t[7]);
        assert(s =~= "7#9"@);
    } else if i == 101 {
        reveal_strlit("minor7b5");
        assert(chord_name(101) == "minor7b5"@);
        assert(s.len() == 3);
        assert(s[0] == t[5]);
        assert(s[1] == t[6]);
        assert(s[2] == t[7]);
        assert(s =~= "7b5"@);
    } else if i == 102 {
        reveal_strlit("minor7b9");
        assert(chord_name(102) == "minor7b9"@);
        assert(s.len() == 3);
        assert(s[0] == t[5]);
        assert(s[1] == t[6]);
        assert(s[2] == t[7]);
        assert(s =~= "7b9"@);
    } else if i == 103 {
        reveal_strlit("minor9");
        assert(chord_name(103) == "minor9"@);
        assert(s.len() == 1);
        assert(s[0] == t[5]);
        assert(s =~= "9"@);
    } else if i == 104 {
        reveal_strlit("minorMajor7");
        assert(chord_name(104) == "minorMajor7"@);
        assert(t[5] == s[0]);
    }
}


/// A known name made of a spelling of "minor" and an extension has one of the minor
/// extensions.
proof fn lemma_minor_extension(p: Seq<char>, s: Seq<char>)
    requires
        is_minor_spelling(p),
        is_chord_extension(s),
        chord_index(p + s) < chord_count(),
    ensures
        is_minor_extension(s),
{
    lemma_first_chord_named_found(p + s, 0);
    let i = chord_index(p + s);
    if p == "-"@ {
        lemma_minor_extension_after_dash(i, s);
    } else if p == "m"@ {
        lemma_minor_extension_after_m(i, s);
    } else if p == "min"@ {
        lemma_minor_extension_after_min(i, s);
    } else {
        lemma_minor_extension_after_minor(i, s);
    }
}

/// The entry of the minor chord spelled `q` with the extension `s`.
proof fn lemma_minor_entry(q: Seq<char>, s: Seq<char>) -> (j: int)
    requires
        is_minor_spelling(q),
        is_minor_extension(s),
    ensures
        0 <= j < chord_count(),
        chord_index(q + s) == j,
        chord_intervals(j) == minor_chord_intervals(s),
{
    reveal_strlit("-");
    reveal_strlit("m");
    reveal_strlit("min");
    reveal_strlit("minor");
    reveal_strlit("#5");
    reveal_strlit("11");
    reveal_strlit("13");
    reveal_strlit("6");
    reveal_strlit("69");
    reveal_strlit("7");
    reveal_strlit("7#5");
    reveal_strlit("7#9");
    reveal_strlit("7b5");
    reveal_strlit("7b9");
    reveal_strlit("9");
    if q == "-"@ && s.len() == 0 {
        reveal_strlit("-");
        assert(q + s =~= chord_name(4));
        lemma_chord_index_of(4);
        4
    } else if q == "-"@ && s == "#5"@ {
        reveal_strlit("-#5");
        assert(q + s =~= chord_name(5));
        lemma_chord_index_of(5);
        5
    } else if q == "-"@ && s == "11"@ {
        reveal_strlit("-11");
        assert(q + s =~= chord_name(6));
        lemma_chord_index_of(6);
        6
    } else if q == "-"@ && s == "13"@ {
        reveal_strlit("-13");
        assert(q + s =~= chord_name(7));
        lemma_chord_index_of(7);
        7
    } else if q == "-"@ && s == "6"@ {
        reveal_strlit("-6");
        assert(q + s =~= chord_name(8));
        lemma_chord_index_of(8);
        8
    } else if q == "-"@ && s == "69"@ {
        reveal_strlit("-69");
        assert(q + s =~= chord_name(9));
        lemma_chord_index_of(9);
        9
    } else if q == "-"@ && s == "7"@ {
        reveal_strlit("-7");
        assert(q + s =~= chord_name(10));
        lemma_chord_index_of(10);
        10
    } else if q == "-"@ && s == "7#5"@ {
        reveal_strlit("-7#5");
        assert(q + s =~= chord_name(11));
        lemma_chord_index_of(11);
        11
    } else if q == "-"@ && s == "7#9"@ {
        reveal_strlit("-7#9");
        assert(q + s =~= chord_name(12));
        lemma_chord_index_of(12);
        12
    } else if q == "-"@ && s == "7b5"@ {
        reveal_strlit("-7b5");
        assert(q + s =~= chord_name(13));
        lemma_chord_index_of(13);
        13
    } else if q == "-"@ && s == "7b9"@ {
        reveal_strlit("-7b9");
        assert(q + s =~= chord_name(14));
        lemma_chord_index_of(14);
        14
    } else if q == "-"@ && s == "9"@ {
        reveal_strlit("-9");
        assert(q + s =~= chord_name(15));
        lemma_chord_index_of(15);
        15
    } else if q == "m"@ && s.len() == 0 {
        reveal_strlit("m");
        assert(q + s =~= chord_name(56));
        lemma_chord_index_of(56);
        56
    } else if q == "m"@ && s == "#5"@ {
        reveal_strlit("m#5");
        assert(q + s =~= chord_name(57));
        lemma_chord_index_of(57);
        57
    } else if q == "m"@ && s == "11"@ {
        reveal_strlit("m11");
        assert(q + s =~= chord_name(58));
        lemma_chord_index_of(58);
        58
    } else if q == "m"@ && s == "13"@ {
        reveal_strlit("m13");
        assert(q + s =~= chord_name(59));
        lemma_chord_index_of(59);
        59
    } else if q == "m"@ && s == "6"@ {
        reveal_strlit("m6");
        assert(q + s =~= chord_name(60));
        lemma_chord_index_of(60);
        60
    } else if q == "m"@ && s == "69"@ {
        reveal_strlit("m69");
        assert(q + s =~= chord_name(61));
        lemma_chord_index_of(61);
        61
    } else if q == "m"@ && s == "7"@ {
        reveal_strlit("m7");
        assert(q + s =~= chord_name(62));
        lemma_chord_index_of(62);
        62
    } else if q == "m"@ && s == "7#5"@ {
        reveal_strlit("m7#5");
        assert(q + s =~= chord_name(63));
        lemma_chord_index_of(63);
        63
    } else if q == "m"@ && s == "7#9"@ {
        reveal_strlit("m7#9");
        assert(q + s =~= chord_name(64));
        lemma_chord_index_of(64);
        64
    } else if q == "m"@ && s == "7b5"@ {
        reveal_strlit("m7b5");
        assert(q + s =~= chord_name(65));
        lemma_chord_index_of(65);
        65
    } else if q == "m"@ && s == "7b9"@ {
        reveal_strlit("m7b9");
        assert(q + s =~= chord_name(66));
        lemma_chord_index_of(66);
        66
    } else if q == "m"@ && s == "9"@ {
        reveal_strlit("m9");
        assert(q + s =~= chord_name(67));
        lemma_chord_index_of(67);
        67
    } else if q == "min"@ && s.len() == 0 {
        reveal_strlit("min");
        assert(q + s =~= chord_name(79));
        lemma_chord_index_of(79);
        79
    } else if q == "min"@ && s == "#5"@ {
        reveal_strlit("min#5");
        assert(q + s =~= chord_name(80));
        lemma_chord_index_of(80);
        80
    } else if q == "min"@ && s == "11"@ {
        reveal_strlit("min11");
        assert(q + s =~= chord_name(81));
        lemma_chord_index_of(81);
        81
    } else if q == "min"@ && s == "13"@ {
        reveal_strlit("min13");
        assert(q + s =~= chord_name(82));
        lemma_chord_index_of(82);
        82
    } else if q == "min"@ && s == "6"@ {
        reveal_strlit("min6");
        assert(q + s =~= chord_name(83));
        lemma_chord_index_of(83);
        83
    } else if q == "min"@ && s == "69"@ {
        reveal_strlit("min69");
        assert(q + s =~= chord_name(84));
        lemma_chord_index_of(84);
        84
    } else if q == "min"@ && s == "7"@ {
        reveal_strlit("min7");
        assert(q + s =~= chord_name(85));
        lemma_chord_index_of(85);
        85
    } else if q == "min"@ && s == "7#5"@ {
        reveal_strlit("min7#5");
        assert(q + s =~= chord_name(86));
        lemma_chord_index_of(86);
        86
    } else if q == "min"@ && s == "7#9"@ {
        reveal_strlit("min7#9");
        assert(q + s =~= chord_name(87));
        lemma_chord_index_of(87);
        87
    } else if q == "min"@ && s == "7b5"@ {
        reveal_strlit("min7b5");
        assert(q + s =~= chord_name(88));
        lemma_chord_index_of(88);
        88
    } else if q == "min"@ && s == "7b9"@ {
        reveal_strlit("min7b9");
        assert(q + s =~= chord_name(89));
        lemma_chord_index_of(89);
        89
    } else if q == "min"@ && s == "9"@ {
        reveal_strlit("min9");
        assert(q + s =~= chord_name(90));
        lemma_chord_index_of(90);
        90
    } else if q == "minor"@ && s.len() == 0 {
        reveal_strlit("minor");
        assert(q + s =~= chord_name(92));
        lemma_chord_index_of(92);
        92
    } else if q == "minor"@ && s == "#5"@ {
        reveal_strlit("minor#5");
        assert(q + s =~= chord_name(93));
        lemma_chord_index_of(93);
        93
    } else if q == "minor"@ && s == "11"@ {
        reveal_strlit("minor11");
        assert(q + s =~= chord_name(94));
        lemma_chord_index_of(94);
        94
    } else if q == "minor"@ && s == "13"@ {
        reveal_strlit("minor13");
        assert(q + s =~= chord_name(95));
        lemma_chord_index_of(95);
        95
    } else if q == "minor"@ && s == "6"@ {
        reveal_strlit("minor6");
        assert(q + s =~= chord_name(96));
        lemma_chord_index_of(96);
        96
    } else if q == "minor"@ && s == "69"@ {
        reveal_strlit("minor69");
        assert(q + s =~= chord_name(97));
        lemma_chord_index_of(97);
        97
    } else if q == "minor"@ && s == "7"@ {
        reveal_strlit("minor7");
        assert(q + s =~= chord_name(98));
        lemma_chord_index_of(98);
        98
    } else if q == "minor"@ && s == "7#5"@ {
        reveal_strlit("minor7#5");
        assert(q + s =~= chord_name(99));
        lemma_chord_index_of(99);
        99
    } else if q == "minor"@ && s == "7#9"@ {
        reveal_strlit("minor7#9");
        assert(q + s =~= chord_name(100));
        lemma_chord_index_of(100);
        100
    } else if q == "minor"@ && s == "7b5"@ {
        reveal_strlit("minor7b5");
        assert(q + s =~= chord_name(101));
        lemma_chord_index_of(101);
        101
    } else if q == "minor"@ && s == "7b9"@ {
        reveal_strlit("minor7b9");
        assert(q + s =~= chord_name(102));
        lemma_chord_index_of(102);
        102
    } else if q == "minor"@ && s == "9"@ {
        reveal_strlit("minor9");
        assert(q + s =~= chord_name(103));
        lemma_chord_index_of(103);
        103
    } else {
        0
    }

}

/// Names of one chord share one interval list: a minor chord can be spelled "-", "m", "min"
/// or "minor", followed by the same extension ("", "#5", "6", "69", "7", "7b5", "9", ...).
/// Whenever the table knows a name in one spelling, it knows the name in every other
/// spelling, and all of them have the same intervals.
pub proof fn lemma_minor_spellings_agree(p: Seq<char>, q: Seq<char>, s: Seq<char>)
    requires
        is_minor_spelling(p),
        is_minor_spelling(q),
        is_chord_extension(s),
        chord_index(p + s) < chord_count(),
    ensures
        chord_index(q + s) < chord_count(),
        chord_intervals(chord_index(q + s)) == chord_intervals(chord_index(p + s)),
{
    lemma_minor_extension(p, s);
    lemma_minor_entry(p, s);
    lemma_minor_entry(q, s);
}

/// Every minor chord of the table has the root and the minor third (3 semitones) first, and
/// never a major third (4 semitones).
pub proof fn lemma_minor_chords_have_minor_thirds(p: Seq<char>, s: Seq<char>)
    requires
        is_minor_spelling(p),
        is_chord_extension(s),
        chord_index(p + s) < chord_count(),
    ensures
        chord_intervals(chord_index(p + s)).len() >= 3,
        chord_intervals(chord_index(p + s))[0] == 0,
        chord_intervals(chord_index(p + s))[1] == 3,
        !chord_intervals(chord_index(p + s)).contains(4u8),
{
    lemma_minor_extension(p, s);
    lemma_minor_entry(p, s);
    let iv = chord_intervals(chord_index(p + s));
    assert forall|k: int| 0 <= k < iv.len() implies iv[k] != 4u8 by {}
}

/// Two names that the chord table gives to one chord: a word and the symbol that stands for
/// it ("aug" and "+", "dim" and "o", "nine" and "9", "minMaj7" and "-^7", ...).
pub open spec fn is_chord_alias(a: Seq<char>, b: Seq<char>) -> bool {
    ||| (a == "augmented"@ && b == "+"@)
    ||| (a == "aug"@ && b == "+"@)
    ||| (a == "six"@ && b == "6"@)
    ||| (a == "sixNine"@ && b == "69"@)
    ||| (a == "add9"@ && b == "+9"@)
    ||| (a == "add11"@ && b == "+11"@)
    ||| (a == "add13"@ && b == "+13"@)
    ||| (a == "nine"@ && b == "9"@)
    ||| (a == "eleven"@ && b == "11"@)
    ||| (a == "thirteen"@ && b == "13"@)
    ||| (a == "diminished"@ && b == "o"@)
    ||| (a == "dim"@ && b == "o"@)
    ||| (a == "diminished7"@ && b == "o7"@)
    ||| (a == "dim7"@ && b == "o7"@)
    ||| (a == "five"@ && b == "5"@)
    ||| (a == "minorMajor7"@ && b == "-^7"@)
    ||| (a == "minMaj7"@ && b == "-^7"@)
    ||| (a == "mM7"@ && b == "-^7"@)
}

/// Names of one chord share one interval list: a word name and its symbol are both known
/// and look up the same intervals.
pub proof fn lemma_chord_aliases_agree(a: Seq<char>, b: Seq<char>)
    requires
        is_chord_alias(a, b),
    ensures
        chord_index(a) < chord_count(),
        chord_index(b) < chord_count(),
        chord_intervals(chord_index(a)) == chord_intervals(chord_index(b)),
{
    if a == "augmented"@ && b == "+"@ {
        lemma_chord_index_of(45);
        lemma_chord_index_of(0);
    } else if a == "aug"@ && b == "+"@ {
        lemma_chord_index_of(44);
        lemma_chord_index_of(0);
    } else if a == "six"@ && b == "6"@ {
        lemma_chord_index_of(108);
        lemma_chord_index_of(20);
    } else if a == "sixNine"@ && b == "69"@ {
        lemma_chord_index_of(109);
        lemma_chord_index_of(21);
    } else if a == "add9"@ && b == "+9"@ {
        lemma_chord_index_of(43);
        lemma_chord_index_of(3);
    } else if a == "add11"@ && b == "+11"@ {
        lemma_chord_index_of(41);
        lemma_chord_index_of(1);
    } else if a == "add13"@ && b == "+13"@ {
        lemma_chord_index_of(42);
        lemma_chord_index_of(2);
    } else if a == "nine"@ && b == "9"@ {
        lemma_chord_index_of(105);
        lemma_chord_index_of(28);
    } else if a == "eleven"@ && b == "11"@ {
        lemma_chord_index_of(54);
        lemma_chord_index_of(17);
    } else if a == "thirteen"@ && b == "13"@ {
        lemma_chord_index_of(112);
        lemma_chord_index_of(18);
    } else if a == "diminished"@ && b == "o"@ {
        lemma_chord_index_of(48);
        lemma_chord_index_of(106);
    } else if a == "dim"@ && b == "o"@ {
        lemma_chord_index_of(46);
        lemma_chord_index_of(106);
    } else if a == "diminished7"@ && b == "o7"@ {
        lemma_chord_index_of(49);
        lemma_chord_index_of(107);
    } else if a == "dim7"@ && b == "o7"@ {
        lemma_chord_index_of(47);
        lemma_chord_index_of(107);
    } else if a == "five"@ && b == "5"@ {
        lemma_chord_index_of(55);
        lemma_chord_index_of(19);
    } else if a == "minorMajor7"@ && b == "-^7"@ {
        lemma_chord_index_of(104);
        lemma_chord_index_of(16);
    } else if a == "minMaj7"@ && b == "-^7"@ {
        lemma_chord_index_of(91);
        lemma_chord_index_of(16);
    } else if a == "mM7"@ && b == "-^7"@ {
        lemma_chord_index_of(68);
        lemma_chord_index_of(16);
    }
}

} // verus!
