//! Musical scales: a key, an octave and a mode, which is either one of the known modes,
//! looked up by name, or a custom mode built from a list of intervals.

use vstd::arithmetic::div_mod::{
    lemma_div_is_ordered, lemma_fundamental_div_mod, lemma_fundamental_div_mod_converse,
    lemma_mod_bound, lemma_mod_pos_bound,
};
use vstd::prelude::*;

use crate::note::{clamp, Note};
use crate::text::{chars_of, eq_ignore_case, lower_code, string_of, vec_eq_ignore_case};

verus! {

// ---------------------------------------------------------------------------------------------
// The table of known modes

/// Name of the known mode at `i`.
pub open spec fn mode_name(i: int) -> Seq<char> {
    if i == 0 {
        "chromatic"@
    } else if i == 1 {
        "natural major"@
    } else if i == 2 {
        "natural minor"@
    } else if i == 3 {
        "pentatonic major"@
    } else if i == 4 {
        "pentatonic minor"@
    } else if i == 5 {
        "pentatonic egyptian"@
    } else if i == 6 {
        "blues major"@
    } else if i == 7 {
        "blues minor"@
    } else if i == 8 {
        "whole tone"@
    } else if i == 9 {
        "augmented"@
    } else if i == 10 {
        "prometheus"@
    } else if i == 11 {
        "tritone"@
    } else if i == 12 {
        "harmonic major"@
    } else if i == 13 {
        "harmonic minor"@
    } else if i == 14 {
        "melodic minor"@
    } else if i == 15 {
        "all minor"@
    } else if i == 16 {
        "dorian"@
    } else if i == 17 {
        "phrygian"@
    } else if i == 18 {
        "phrygian dominant"@
    } else if i == 19 {
        "lydian"@
    } else if i == 20 {
        "lydian augmented"@
    } else if i == 21 {
        "mixolydian"@
    } else if i == 22 {
        "locrian"@
    } else if i == 23 {
        "locrian major"@
    } else if i == 24 {
        "super locrian"@
    } else if i == 25 {
        "neapolitan major"@
    } else if i == 26 {
        "neapolitan minor"@
    } else if i == 27 {
        "romanian minor"@
    } else if i == 28 {
        "spanish gypsy"@
    } else if i == 29 {
        "hungarian gypsy"@
    } else if i == 30 {
        "enigmatic"@
    } else if i == 31 {
        "overtone"@
    } else if i == 32 {
        "diminished half"@
    } else if i == 33 {
        "diminished whole"@
    } else if i == 34 {
        "spanish eight-tone"@
    } else {
        "nine-tone"@
    }
}

/// Alternative names of the known mode at `i`, as listed in its `;` separated name list.
pub open spec fn mode_alt_names(i: int) -> Seq<Seq<char>> {
    if i == 0 {
        seq!["all"@]
    } else if i == 1 {
        seq!["major"@, "ionian"@]
    } else if i == 2 {
        seq!["minor"@, "aeolian"@]
    } else if i == 3 {
        seq![""@]
    } else if i == 4 {
        seq![""@]
    } else if i == 5 {
        seq![""@]
    } else if i == 6 {
        seq![""@]
    } else if i == 7 {
        seq![""@]
    } else if i == 8 {
        seq![""@]
    } else if i == 9 {
        seq![""@]
    } else if i == 10 {
        seq![""@]
    } else if i == 11 {
        seq![""@]
    } else if i == 12 {
        seq![""@]
    } else if i == 13 {
        seq![""@]
    } else if i == 14 {
        seq![""@]
    } else if i == 15 {
        seq![""@]
    } else if i == 16 {
        seq![""@]
    } else if i == 17 {
        seq![""@]
    } else if i == 18 {
        seq![""@]
    } else if i == 19 {
        seq![""@]
    } else if i == 20 {
        seq![""@]
    } else if i == 21 {
        seq![""@]
    } else if i == 22 {
        seq![""@]
    } else if i == 23 {
        seq![""@]
    } else if i == 24 {
        seq![""@]
    } else if i == 25 {
        seq![""@]
    } else if i == 26 {
        seq![""@]
    } else if i == 27 {
        seq![""@]
    } else if i == 28 {
        seq![""@]
    } else if i == 29 {
        seq![""@]
    } else if i == 30 {
        seq![""@]
    } else if i == 31 {
        seq![""@]
    } else if i == 32 {
        seq![""@]
    } else if i == 33 {
        seq![""@]
    } else if i == 34 {
        seq!["eight-tone"@]
    } else {
        seq![""@]
    }
}

/// Degrees of the known mode at `i`, per step of the octave (0: the step is not in the mode).
pub open spec fn mode_degrees(i: int) -> Seq<usize> {
    if i == 0 {
        seq![1, 2, 3, 4, 5, 6, 7, 8, 9, 10, 11, 12]
    } else if i == 1 {
        seq![1, 0, 2, 0, 3, 4, 0, 5, 0, 6, 0, 7]
    } else if i == 2 {
        seq![1, 0, 2, 3, 0, 4, 0, 5, 6, 0, 7, 0]
    } else if i == 3 {
        seq![1, 0, 2, 0, 3, 0, 0, 4, 0, 5, 0, 0]
    } else if i == 4 {
        seq![1, 0, 0, 2, 0, 3, 0, 4, 0, 0, 5, 0]
    } else if i == 5 {
        seq![1, 0, 2, 0, 0, 3, 0, 4, 0, 0, 5, 0]
    } else if i == 6 {
        seq![1, 0, 2, 3, 4, 0, 0, 5, 0, 6, 0, 0]
    } else if i == 7 {
        seq![1, 0, 0, 2, 0, 3, 4, 5, 0, 0, 6, 0]
    } else if i == 8 {
        seq![1, 0, 2, 0, 3, 0, 4, 0, 5, 0, 6, 0]
    } else if i == 9 {
        seq![1, 0, 0, 2, 3, 0, 0, 4, 5, 0, 0, 6]
    } else if i == 10 {
        seq![1, 0, 2, 0, 3, 0, 4, 0, 0, 5, 6, 0]
    } else if i == 11 {
        seq![1, 2, 0, 0, 3, 0, 4, 5, 0, 0, 6, 0]
    } else if i == 12 {
        seq![1, 0, 2, 0, 3, 4, 0, 5, 6, 0, 0, 7]
    } else if i == 13 {
        seq![1, 0, 2, 3, 0, 4, 0, 5, 6, 0, 0, 7]
    } else if i == 14 {
        seq![1, 0, 2, 3, 0, 4, 0, 5, 0, 6, 0, 7]
    } else if i == 15 {
        seq![1, 0, 2, 3, 0, 4, 0, 5, 6, 6, 7, 7]
    } else if i == 16 {
        seq![1, 0, 2, 3, 0, 4, 0, 5, 0, 6, 7, 0]
    } else if i == 17 {
        seq![1, 2, 0, 3, 0, 4, 0, 5, 6, 0, 7, 0]
    } else if i == 18 {
        seq![1, 2, 0, 0, 3, 4, 0, 5, 6, 0, 7, 0]
    } else if i == 19 {
        seq![1, 0, 2, 0, 3, 0, 4, 5, 0, 6, 0, 7]
    } else if i == 20 {
        seq![1, 0, 2, 0, 3, 0, 4, 0, 5, 6, 0, 7]
    } else if i == 21 {
        seq![1, 0, 2, 0, 3, 4, 0, 5, 0, 6, 7, 0]
    } else if i == 22 {
        seq![1, 2, 0, 3, 0, 4, 5, 0, 6, 0, 7, 0]
    } else if i == 23 {
        seq![1, 0, 2, 0, 3, 4, 5, 0, 6, 0, 7, 0]
    } else if i == 24 {
        seq![1, 2, 0, 3, 4, 0, 5, 0, 6, 0, 7, 0]
    } else if i == 25 {
        seq![1, 2, 0, 3, 0, 4, 0, 5, 0, 6, 0, 7]
    } else if i == 26 {
        seq![1, 2, 0, 3, 0, 4, 0, 5, 6, 0, 0, 7]
    } else if i == 27 {
        seq![1, 0, 2, 3, 0, 0, 4, 5, 0, 6, 7, 0]
    } else if i == 28 {
        seq![1, 2, 0, 0, 3, 4, 0, 5, 6, 0, 0, 7]
    } else if i == 29 {
        seq![1, 0, 2, 3, 0, 0, 4, 5, 6, 0, 0, 7]
    } else if i == 30 {
        seq![1, 2, 0, 0, 3, 0, 4, 0, 5, 0, 6, 7]
    } else if i == 31 {
        seq![1, 0, 2, 0, 3, 0, 4, 5, 0, 6, 7, 0]
    } else if i == 32 {
        seq![1, 2, 0, 3, 4, 0, 5, 6, 0, 7, 8, 0]
    } else if i == 33 {
        seq![1, 0, 2, 3, 0, 4, 5, 0, 6, 7, 0, 8]
    } else if i == 34 {
        seq![1, 2, 0, 3, 4, 5, 6, 0, 7, 0, 8, 0]
    } else {
        seq![1, 0, 2, 3, 4, 0, 5, 6, 7, 8, 0, 9]
    }
}


/// A list of 12 degrees, one per step of the octave (0: the step is not part of the mode),
/// with at least one step in the mode and no degree above 12.
pub open spec fn valid_degrees(d: Seq<usize>) -> bool {
    &&& d.len() == 12
    &&& forall|i: int| 0 <= i < 12 ==> #[trigger] d[i] <= 12
    &&& exists|i: int| 0 <= i < 12 && #[trigger] d[i] != 0
}

/// The steps of the octave that lie in the mode, ascending, among the first `n` steps.
pub open spec fn steps_upto(d: Seq<usize>, n: int) -> Seq<usize>
    decreases n,
{
    if n <= 0 {
        seq![]
    } else if d[n - 1] != 0 {
        steps_upto(d, n - 1).push((n - 1) as usize)
    } else {
        steps_upto(d, n - 1)
    }
}

/// The steps of the octave that lie in the mode, ascending.
pub open spec fn steps_of(d: Seq<usize>) -> Seq<usize> {
    steps_upto(d, 12)
}

/// A scale mode: a name, alternative names and the degree of each step of the octave.
#[derive(Debug)]
pub struct Mode {
    name: &'static str,
    alt_names: Vec<&'static str>,
    degrees: Vec<usize>,
}

impl Mode {
    #[verifier::type_invariant]
    spec fn well_formed(self) -> bool {
        valid_degrees(self.degrees@)
    }

    /// The mode's name.
    pub closed spec fn name_view(&self) -> Seq<char> {
        self.name@
    }

    /// The mode's alternative names.
    pub closed spec fn alt_names_view(&self) -> Seq<Seq<char>> {
        self.alt_names@.map_values(|s: &str| s@)
    }

    /// The degree of each step of the octave; 0 for the steps outside the mode.
    pub closed spec fn degrees_view(&self) -> Seq<usize> {
        self.degrees@
    }

    fn known(name: &'static str, alt_names: Vec<&'static str>, degrees: Vec<usize>) -> (m: Mode)
        requires
            degrees@.len() == 12,
            forall|i: int| 0 <= i < 12 ==> #[trigger] degrees@[i] <= 12,
            degrees@[0] == 1,
        ensures
            m.name_view() == name@,
            m.alt_names_view() == alt_names@.map_values(|s: &str| s@),
            m.degrees_view() == degrees@,
    {
        assert(degrees@[0] != 0);
        Mode { name, alt_names, degrees }
    }

    /// The known mode at `i` of the table.
    fn known_mode(i: usize) -> (m: Mode)
        requires
            i < 36,
        ensures
            m.name_view() == mode_name(i as int),
            m.alt_names_view() == mode_alt_names(i as int),
            m.degrees_view() == mode_degrees(i as int),
    {
        match i {
            0 => Mode::known("chromatic", vec!["all"], vec![1, 2, 3, 4, 5, 6, 7, 8, 9, 10, 11, 12]),
            1 => Mode::known("natural major", vec!["major", "ionian"], vec![1, 0, 2, 0, 3, 4, 0, 5, 0, 6, 0, 7]),
            2 => Mode::known("natural minor", vec!["minor", "aeolian"], vec![1, 0, 2, 3, 0, 4, 0, 5, 6, 0, 7, 0]),
            3 => Mode::known("pentatonic major", vec![""], vec![1, 0, 2, 0, 3, 0, 0, 4, 0, 5, 0, 0]),
            4 => Mode::known("pentatonic minor", vec![""], vec![1, 0, 0, 2, 0, 3, 0, 4, 0, 0, 5, 0]),
            5 => Mode::known("pentatonic egyptian", vec![""], vec![1, 0, 2, 0, 0, 3, 0, 4, 0, 0, 5, 0]),
            6 => Mode::known("blues major", vec![""], vec![1, 0, 2, 3, 4, 0, 0, 5, 0, 6, 0, 0]),
            7 => Mode::known("blues minor", vec![""], vec![1, 0, 0, 2, 0, 3, 4, 5, 0, 0, 6, 0]),
            8 => Mode::known("whole tone", vec![""], vec![1, 0, 2, 0, 3, 0, 4, 0, 5, 0, 6, 0]),
            9 => Mode::known("augmented", vec![""], vec![1, 0, 0, 2, 3, 0, 0, 4, 5, 0, 0, 6]),
            10 => Mode::known("prometheus", vec![""], vec![1, 0, 2, 0, 3, 0, 4, 0, 0, 5, 6, 0]),
            11 => Mode::known("tritone", vec![""], vec![1, 2, 0, 0, 3, 0, 4, 5, 0, 0, 6, 0]),
            12 => Mode::known("harmonic major", vec![""], vec![1, 0, 2, 0, 3, 4, 0, 5, 6, 0, 0, 7]),
            13 => Mode::known("harmonic minor", vec![""], vec![1, 0, 2, 3, 0, 4, 0, 5, 6, 0, 0, 7]),
            14 => Mode::known("melodic minor", vec![""], vec![1, 0, 2, 3, 0, 4, 0, 5, 0, 6, 0, 7]),
            15 => Mode::known("all minor", vec![""], vec![1, 0, 2, 3, 0, 4, 0, 5, 6, 6, 7, 7]),
            16 => Mode::known("dorian", vec![""], vec![1, 0, 2, 3, 0, 4, 0, 5, 0, 6, 7, 0]),
            17 => Mode::known("phrygian", vec![""], vec![1, 2, 0, 3, 0, 4, 0, 5, 6, 0, 7, 0]),
            18 => Mode::known("phrygian dominant", vec![""], vec![1, 2, 0, 0, 3, 4, 0, 5, 6, 0, 7, 0]),
            19 => Mode::known("lydian", vec![""], vec![1, 0, 2, 0, 3, 0, 4, 5, 0, 6, 0, 7]),
            20 => Mode::known("lydian augmented", vec![""], vec![1, 0, 2, 0, 3, 0, 4, 0, 5, 6, 0, 7]),
            21 => Mode::known("mixolydian", vec![""], vec![1, 0, 2, 0, 3, 4, 0, 5, 0, 6, 7, 0]),
            22 => Mode::known("locrian", vec![""], vec![1, 2, 0, 3, 0, 4, 5, 0, 6, 0, 7, 0]),
            23 => Mode::known("locrian major", vec![""], vec![1, 0, 2, 0, 3, 4, 5, 0, 6, 0, 7, 0]),
            24 => Mode::known("super locrian", vec![""], vec![1, 2, 0, 3, 4, 0, 5, 0, 6, 0, 7, 0]),
            25 => Mode::known("neapolitan major", vec![""], vec![1, 2, 0, 3, 0, 4, 0, 5, 0, 6, 0, 7]),
            26 => Mode::known("neapolitan minor", vec![""], vec![1, 2, 0, 3, 0, 4, 0, 5, 6, 0, 0, 7]),
            27 => Mode::known("romanian minor", vec![""], vec![1, 0, 2, 3, 0, 0, 4, 5, 0, 6, 7, 0]),
            28 => Mode::known("spanish gypsy", vec![""], vec![1, 2, 0, 0, 3, 4, 0, 5, 6, 0, 0, 7]),
            29 => Mode::known("hungarian gypsy", vec![""], vec![1, 0, 2, 3, 0, 0, 4, 5, 6, 0, 0, 7]),
            30 => Mode::known("enigmatic", vec![""], vec![1, 2, 0, 0, 3, 0, 4, 0, 5, 0, 6, 7]),
            31 => Mode::known("overtone", vec![""], vec![1, 0, 2, 0, 3, 0, 4, 5, 0, 6, 7, 0]),
            32 => Mode::known("diminished half", vec![""], vec![1, 2, 0, 3, 4, 0, 5, 6, 0, 7, 8, 0]),
            33 => Mode::known("diminished whole", vec![""], vec![1, 0, 2, 3, 0, 4, 5, 0, 6, 7, 0, 8]),
            34 => Mode::known("spanish eight-tone", vec!["eight-tone"], vec![1, 2, 0, 3, 4, 5, 6, 0, 7, 0, 8, 0]),
            _ => Mode::known("nine-tone", vec![""], vec![1, 0, 2, 3, 4, 0, 5, 6, 7, 8, 0, 9]),
        }
    }

    /// The raw degrees of the mode, per step of the octave (0: no step).
    pub fn degrees(&self) -> (r: Vec<usize>)
        ensures
            r@ == self.degrees_view(),
    {
        self.degrees.clone()
    }
}

impl Clone for Mode {
    fn clone(&self) -> (r: Mode)
        ensures
            r.name_view() == self.name_view(),
            r.alt_names_view() == self.alt_names_view(),
            r.degrees_view() == self.degrees_view(),
    {
        proof {
            use_type_invariant(self);
        }
        let alt_names = self.alt_names.clone();
        let degrees = self.degrees.clone();
        assert(alt_names@ == self.alt_names@);
        assert(degrees@ == self.degrees@);
        Mode { name: self.name, alt_names, degrees }
    }
}

/// The known modes, in lookup order.
pub fn scale_modes() -> (r: Vec<Mode>)
    ensures
        r@.len() == 36,
        forall|i: int|
            0 <= i < 36 ==> {
                &&& #[trigger] r@[i].name_view() == mode_name(i)
                &&& r@[i].alt_names_view() == mode_alt_names(i)
                &&& r@[i].degrees_view() == mode_degrees(i)
            },
{
    let mut r: Vec<Mode> = Vec::new();
    let mut i: usize = 0;
    while i < 36
        invariant
            i <= 36,
            r@.len() == i,
            forall|k: int|
                0 <= k < i ==> {
                    &&& #[trigger] r@[k].name_view() == mode_name(k)
                    &&& r@[k].alt_names_view() == mode_alt_names(k)
                    &&& r@[k].degrees_view() == mode_degrees(k)
                },
        decreases 36 - i,
    {
        r.push(Mode::known_mode(i));
        i = i + 1;
    }
    r
}


// ---------------------------------------------------------------------------------------------
// Custom modes from intervals

/// The degrees of a custom mode built from the first `n` intervals of `iv`: the step of each
/// interval gets the interval's position, counted from 1; a later interval on the same step
/// overrides an earlier one.
pub open spec fn custom_degrees(iv: Seq<i32>, n: int) -> Seq<usize>
    decreases n,
{
    if n <= 0 {
        Seq::new(12, |i: int| 0usize)
    } else {
        custom_degrees(iv, n - 1).update(iv[n - 1] as int, n as usize)
    }
}

proof fn lemma_custom_degrees_len(iv: Seq<i32>, n: int)
    requires
        0 <= n <= iv.len(),
        forall|j: int| 0 <= j < n ==> 0 <= #[trigger] iv[j] < 12,
    ensures
        custom_degrees(iv, n).len() == 12,
    decreases n,
{
    if n > 0 {
        lemma_custom_degrees_len(iv, n - 1);
    }
}

/// Why an interval list does not make a custom mode, if it does not.
pub open spec fn intervals_error(iv: Seq<i32>) -> Option<Seq<char>> {
    if iv.len() == 0 {
        Some("Interval list can not be empty"@)
    } else if iv.len() > 11 {
        Some("Interval list can only contain up to 11 elements"@)
    } else if exists|k: int| 0 <= k < iv.len() - 1 && #[trigger] iv[k] > iv[k + 1] {
        Some("Interval list must be sorted in ascending order"@)
    } else if exists|k: int| 0 <= k < iv.len() && !(0 <= #[trigger] iv[k] < 12) {
        Some("intervals must be in range [0..11]"@)
    } else {
        None
    }
}

impl<'a> TryFrom<&'a Vec<i32>> for Mode {
    type Error = String;

    /// Builds a custom mode from a sorted list of at most 11 intervals in `0..12`.
    fn try_from(intervals: &'a Vec<i32>) -> (r: Result<Mode, String>)
        ensures
            match r {
                Ok(m) => {
                    &&& intervals_error(intervals@) is None
                    &&& m.name_view() == "custom scale"@
                    &&& m.alt_names_view() == seq![""@]
                    &&& m.degrees_view() == custom_degrees(intervals@, intervals@.len() as int)
                },
                Err(e) => intervals_error(intervals@) == Some(e@),
            },
    {
        let n = intervals.len();
        if n == 0 {
            return Err(string_of("Interval list can not be empty"));
        }
        if n > 11 {
            return Err(string_of("Interval list can only contain up to 11 elements"));
        }
        let mut k: usize = 0;
        while k + 1 < n
            invariant
                n == intervals@.len(),
                1 <= n <= 11,
                k < n,
                forall|j: int| 0 <= j < k ==> #[trigger] intervals@[j] <= intervals@[j + 1],
            decreases n - k,
        {
            if intervals[k] > intervals[k + 1] {
                return Err(string_of("Interval list must be sorted in ascending order"));
            }
            k = k + 1;
        }
        assert(!exists|j: int| 0 <= j < n - 1 && #[trigger] intervals@[j] > intervals@[j + 1]);
        let mut degrees: Vec<usize> = vec![0, 0, 0, 0, 0, 0, 0, 0, 0, 0, 0, 0];
        assert(degrees@ =~= custom_degrees(intervals@, 0));
        let mut k: usize = 0;
        while k < n
            invariant
                n == intervals@.len(),
                1 <= n <= 11,
                k <= n,
                degrees@ == custom_degrees(intervals@, k as int),
                degrees@.len() == 12,
                forall|j: int| 0 <= j < 12 ==> #[trigger] degrees@[j] <= k,
                forall|j: int| 0 <= j < k ==> 0 <= #[trigger] intervals@[j] < 12,
                forall|j: int| 0 <= j < n - 1 ==> #[trigger] intervals@[j] <= intervals@[j + 1],
            decreases n - k,
        {
            let i = intervals[k];
            if !(0 <= i && i < 12) {
                assert(!(0 <= intervals@[k as int] < 12));
                return Err(string_of("intervals must be in range [0..11]"));
            }
            degrees.set(i as usize, k + 1);
            k = k + 1;
        }
        let last = intervals[n - 1] as usize;
        proof {
            lemma_custom_degrees_len(intervals@, n - 1);
        }
        assert(custom_degrees(intervals@, n as int) == custom_degrees(intervals@, n - 1).update(
            last as int,
            n,
        ));
        assert(degrees@[last as int] != 0);
        Ok(Mode { name: "custom scale", alt_names: vec![""], degrees })
    }
}

impl<'a> vstd::std_specs::convert::TryFromSpecImpl<&'a Vec<i32>> for Mode {
    open spec fn obeys_try_from_spec() -> bool {
        false
    }

    open spec fn try_from_spec(v: &'a Vec<i32>) -> Result<Mode, String> {
        vstd::pervasive::arbitrary()
    }
}

// ---------------------------------------------------------------------------------------------
// Known modes by name

/// Whether `c` is white space, as Unicode's `White_Space` property has it.
pub open spec fn is_white_space(c: char) -> bool {
    let v = c as u32;
    ||| 9 <= v <= 13
    ||| v == 32
    ||| v == 0x85
    ||| v == 0xA0
    ||| v == 0x1680
    ||| 0x2000 <= v <= 0x200A
    ||| v == 0x2028
    ||| v == 0x2029
    ||| v == 0x202F
    ||| v == 0x205F
    ||| v == 0x3000
}

fn is_white_space_exec(c: char) -> (r: bool)
    ensures
        r == is_white_space(c),
{
    let v = c as u32;
    (9 <= v && v <= 13) || v == 32 || v == 0x85 || v == 0xA0 || v == 0x1680 || (0x2000 <= v && v
        <= 0x200A) || v == 0x2028 || v == 0x2029 || v == 0x202F || v == 0x205F || v == 0x3000
}

/// `s` without its leading white space.
pub open spec fn trim_start(s: Seq<char>) -> Seq<char>
    decreases s.len(),
{
    if s.len() > 0 && is_white_space(s[0]) {
        trim_start(s.drop_first())
    } else {
        s
    }
}

/// `s` without its trailing white space.
pub open spec fn trim_end(s: Seq<char>) -> Seq<char>
    decreases s.len(),
{
    if s.len() > 0 && is_white_space(s.last()) {
        trim_end(s.drop_last())
    } else {
        s
    }
}

/// `s` without leading and trailing white space.
pub open spec fn trim(s: Seq<char>) -> Seq<char> {
    trim_end(trim_start(s))
}

/// The words of `s`: its maximal runs of characters other than the space character `' '`.
pub open spec fn words(s: Seq<char>) -> Seq<Seq<char>>
    decreases s.len(),
{
    if s.len() == 0 {
        seq![]
    } else {
        let w = words(s.drop_last());
        if s.last() == ' ' {
            w
        } else if s.len() > 1 && s[s.len() - 2] != ' ' {
            w.drop_last().push(w.last().push(s.last()))
        } else {
            w.push(seq![s.last()])
        }
    }
}

/// The words joined by single spaces.
pub open spec fn join_words(ws: Seq<Seq<char>>) -> Seq<char>
    decreases ws.len(),
{
    if ws.len() == 0 {
        seq![]
    } else if ws.len() == 1 {
        ws[0]
    } else {
        join_words(ws.drop_last()) + seq![' '] + ws.last()
    }
}

/// The word that a short form of a mode name word stands for; other words stay. Short forms
/// are recognised ignoring ASCII case.
pub open spec fn synonym(w: Seq<char>) -> Seq<char> {
    if eq_ignore_case(w, "8-tone"@) {
        "eight-tone"@
    } else if eq_ignore_case(w, "9-tone"@) {
        "nine-tone"@
    } else if eq_ignore_case(w, "aug"@) {
        "augmented"@
    } else if eq_ignore_case(w, "dim"@) {
        "diminished"@
    } else if eq_ignore_case(w, "dom"@) {
        "Dominant"@
    } else if eq_ignore_case(w, "egypt"@) {
        "egyptian"@
    } else if eq_ignore_case(w, "harm"@) {
        "harmonic"@
    } else if eq_ignore_case(w, "hungary"@) {
        "hungarian"@
    } else if eq_ignore_case(w, "roman"@) {
        "romanian"@
    } else if eq_ignore_case(w, "min"@) {
        "minor"@
    } else if eq_ignore_case(w, "maj"@) {
        "major"@
    } else if eq_ignore_case(w, "nat"@) {
        "natural"@
    } else if eq_ignore_case(w, "penta"@) {
        "pentatonic"@
    } else if eq_ignore_case(w, "span"@) {
        "spanish"@
    } else {
        w
    }
}

/// A mode name as it is compared with the known names: its words, with short forms
/// expanded, joined by single spaces, and trimmed. (The comparison ignores ASCII case.)
pub open spec fn normalized_mode_name(s: Seq<char>) -> Seq<char> {
    trim(join_words(words(s).map_values(|w: Seq<char>| synonym(w))))
}

/// Whether the known mode at `i` is called `name`, by its name or an alternative name,
/// ignoring ASCII case.
pub open spec fn mode_is_called(i: int, name: Seq<char>) -> bool {
    ||| eq_ignore_case(mode_name(i), name)
    ||| exists|j: int|
        0 <= j < mode_alt_names(i).len() && eq_ignore_case(#[trigger] mode_alt_names(i)[j], name)
}

/// The first known mode from `i` on that is called `name`; 36 if there is none.
pub open spec fn first_mode_called(name: Seq<char>, i: int) -> int
    decreases 36 - i,
{
    if i >= 36 {
        36
    } else if mode_is_called(i, name) {
        i
    } else {
        first_mode_called(name, i + 1)
    }
}

/// The known mode that a mode name selects; 36 if it selects none.
pub open spec fn mode_index(s: Seq<char>) -> int {
    first_mode_called(normalized_mode_name(s), 0)
}

/// The views of a list of character vectors.
pub open spec fn char_views(v: Seq<Vec<char>>) -> Seq<Seq<char>> {
    v.map_values(|w: Vec<char>| w@)
}

/// Splits `s` into its words.
fn split_words(s: &Vec<char>) -> (r: Vec<Vec<char>>)
    ensures
        char_views(r@) == words(s@),
{
    let mut r: Vec<Vec<char>> = Vec::new();
    let mut i: usize = 0;
    assert(s@.subrange(0, 0) =~= seq![]);
    while i < s.len()
        invariant
            i <= s@.len(),
            char_views(r@) == words(s@.subrange(0, i as int)),
            i > 0 && s@[i - 1] != ' ' ==> r@.len() > 0,
        decreases s@.len() - i,
    {
        let c = s[i];
        let ghost pre = s@.subrange(0, i as int);
        let ghost cur = s@.subrange(0, i + 1);
        assert(cur.drop_last() =~= pre);
        assert(cur.last() == c);
        if c != ' ' {
            if i > 0 && s[i - 1] != ' ' {
                assert(cur[cur.len() - 2] == s@[i - 1]);
                let mut w = r.pop().unwrap();
                w.push(c);
                r.push(w);
                assert(char_views(r@) =~= words(pre).drop_last().push(words(pre).last().push(c)));
            } else {
                assert(i > 0 ==> cur[cur.len() - 2] == s@[i - 1]);
                let mut w: Vec<char> = Vec::new();
                w.push(c);
                assert(w@ =~= seq![c]);
                r.push(w);
                assert(char_views(r@) =~= words(pre).push(seq![c]));
            }
        } else {
            assert(char_views(r@) =~= words(cur));
        }
        i = i + 1;
    }
    assert(s@.subrange(0, s@.len() as int) =~= s@);
    r
}

/// The word that `w` stands for, see `synonym`.
fn synonym_of(w: &Vec<char>) -> (r: Vec<char>)
    ensures
        r@ == synonym(w@),
{
    if vec_eq_ignore_case(w, &chars_of("8-tone")) {
        chars_of("eight-tone")
    } else if vec_eq_ignore_case(w, &chars_of("9-tone")) {
        chars_of("nine-tone")
    } else if vec_eq_ignore_case(w, &chars_of("aug")) {
        chars_of("augmented")
    } else if vec_eq_ignore_case(w, &chars_of("dim")) {
        chars_of("diminished")
    } else if vec_eq_ignore_case(w, &chars_of("dom")) {
        chars_of("Dominant")
    } else if vec_eq_ignore_case(w, &chars_of("egypt")) {
        chars_of("egyptian")
    } else if vec_eq_ignore_case(w, &chars_of("harm")) {
        chars_of("harmonic")
    } else if vec_eq_ignore_case(w, &chars_of("hungary")) {
        chars_of("hungarian")
    } else if vec_eq_ignore_case(w, &chars_of("roman")) {
        chars_of("romanian")
    } else if vec_eq_ignore_case(w, &chars_of("min")) {
        chars_of("minor")
    } else if vec_eq_ignore_case(w, &chars_of("maj")) {
        chars_of("major")
    } else if vec_eq_ignore_case(w, &chars_of("nat")) {
        chars_of("natural")
    } else if vec_eq_ignore_case(w, &chars_of("penta")) {
        chars_of("pentatonic")
    } else if vec_eq_ignore_case(w, &chars_of("span")) {
        chars_of("spanish")
    } else {
        w.clone()
    }
}

/// The words joined by single spaces.
fn join_with_spaces(ws: &Vec<Vec<char>>) -> (r: Vec<char>)
    ensures
        r@ == join_words(char_views(ws@)),
{
    let mut r: Vec<char> = Vec::new();
    let mut i: usize = 0;
    while i < ws.len()
        invariant
            i <= ws@.len(),
            r@ == join_words(char_views(ws@.subrange(0, i as int))),
        decreases ws@.len() - i,
    {
        let ghost pre = char_views(ws@.subrange(0, i as int));
        let ghost cur = char_views(ws@.subrange(0, i + 1));
        assert(cur.drop_last() =~= pre);
        assert(cur.last() == ws@[i as int]@);
        if i > 0 {
            r.push(' ');
        }
        let w = &ws[i];
        let mut j: usize = 0;
        let ghost start = r@;
        while j < w.len()
            invariant
                j <= w@.len(),
                r@ == start + w@.subrange(0, j as int),
            decreases w@.len() - j,
        {
            r.push(w[j]);
            j = j + 1;
            assert(r@ =~= start + w@.subrange(0, j as int));
        }
        assert(w@.subrange(0, w@.len() as int) =~= w@);
        if i == 0 {
            assert(r@ =~= cur[0]);
        } else {
            assert(r@ =~= join_words(pre) + seq![' '] + cur.last());
        }
        i = i + 1;
    }
    assert(ws@.subrange(0, ws@.len() as int) =~= ws@);
    r
}

proof fn lemma_trim_start_skip(s: Seq<char>, a: int)
    requires
        0 <= a < s.len(),
        is_white_space(s[a]),
    ensures
        trim_start(s.subrange(a, s.len() as int)) == trim_start(s.subrange(a + 1, s.len() as int)),
{
    assert(s.subrange(a, s.len() as int).drop_first() =~= s.subrange(a + 1, s.len() as int));
}

proof fn lemma_trim_end_skip(s: Seq<char>, a: int, b: int)
    requires
        0 <= a < b <= s.len(),
        is_white_space(s[b - 1]),
    ensures
        trim_end(s.subrange(a, b)) == trim_end(s.subrange(a, b - 1)),
{
    assert(s.subrange(a, b).drop_last() =~= s.subrange(a, b - 1));
}

/// `s` without leading and trailing white space.
fn trim_chars(s: &Vec<char>) -> (r: Vec<char>)
    ensures
        r@ == trim(s@),
{
    let n = s.len();
    let mut a: usize = 0;
    assert(s@.subrange(0, n as int) =~= s@);
    while a < n && is_white_space_exec(s[a])
        invariant
            n == s@.len(),
            a <= n,
            trim_start(s@.subrange(a as int, n as int)) == trim_start(s@),
        decreases n - a,
    {
        proof {
            lemma_trim_start_skip(s@, a as int);
        }
        a = a + 1;
    }
    assert(trim_start(s@) == s@.subrange(a as int, n as int));
    let mut b: usize = n;
    while b > a && is_white_space_exec(s[b - 1])
        invariant
            n == s@.len(),
            a <= b <= n,
            trim_end(s@.subrange(a as int, b as int)) == trim(s@),
        decreases b - a,
    {
        proof {
            lemma_trim_end_skip(s@, a as int, b as int);
        }
        b = b - 1;
    }
    assert(trim(s@) == s@.subrange(a as int, b as int));
    let mut r: Vec<char> = Vec::new();
    let mut k: usize = a;
    while k < b
        invariant
            a <= k <= b <= n,
            n == s@.len(),
            r@ == s@.subrange(a as int, k as int),
        decreases b - k,
    {
        r.push(s[k]);
        k = k + 1;
        assert(r@ =~= s@.subrange(a as int, k as int));
    }
    r
}

/// `name` normalized for the comparison with the known mode names.
fn normalize_mode_name(name: &str) -> (r: Vec<char>)
    ensures
        r@ == normalized_mode_name(name@),
{
    let cs = chars_of(name);
    let ws = split_words(&cs);
    let mut expanded: Vec<Vec<char>> = Vec::new();
    let mut i: usize = 0;
    while i < ws.len()
        invariant
            i <= ws@.len(),
            char_views(ws@) == words(name@),
            expanded@.len() == i,
            forall|k: int| 0 <= k < i ==> #[trigger] expanded@[k]@ == synonym(ws@[k]@),
        decreases ws@.len() - i,
    {
        expanded.push(synonym_of(&ws[i]));
        i = i + 1;
    }
    assert(char_views(expanded@) =~= words(name@).map_values(|w: Seq<char>| synonym(w)));
    let joined = join_with_spaces(&expanded);
    trim_chars(&joined)
}

impl Mode {
    /// Whether this mode is called `name`, by its name or an alternative name, ignoring
    /// ASCII case.
    fn is_called(&self, name: &Vec<char>) -> (r: bool)
        ensures
            r == (eq_ignore_case(self.name_view(), name@) || exists|j: int|
                0 <= j < self.alt_names_view().len() && eq_ignore_case(
                    #[trigger] self.alt_names_view()[j],
                    name@,
                )),
    {
        if vec_eq_ignore_case(&chars_of(self.name), name) {
            return true;
        }
        let mut j: usize = 0;
        while j < self.alt_names.len()
            invariant
                j <= self.alt_names@.len(),
                forall|k: int|
                    0 <= k < j ==> !eq_ignore_case(#[trigger] self.alt_names_view()[k], name@),
            decreases self.alt_names@.len() - j,
        {
            if vec_eq_ignore_case(&chars_of(self.alt_names[j]), name) {
                assert(self.alt_names_view()[j as int] == self.alt_names@[j as int]@);
                return true;
            }
            assert(self.alt_names_view()[j as int] == self.alt_names@[j as int]@);
            j = j + 1;
        }
        false
    }
}

/// Whether `m` is the known mode at `i`.
pub open spec fn is_known_mode(m: Mode, i: int) -> bool {
    &&& m.name_view() == mode_name(i)
    &&& m.alt_names_view() == mode_alt_names(i)
    &&& m.degrees_view() == mode_degrees(i)
}

impl<'a> TryFrom<&'a str> for Mode {
    type Error = String;

    /// Looks up a known mode by name: see `mode_index`.
    fn try_from(mode: &'a str) -> (r: Result<Mode, String>)
        ensures
            match r {
                Ok(m) => mode_index(mode@) < 36 && is_known_mode(m, mode_index(mode@)),
                Err(e) => mode_index(mode@) == 36 && e@ == "Unknown scale"@,
            },
    {
        let norm = normalize_mode_name(mode);
        let mut i: usize = 0;
        while i < 36
            invariant
                i <= 36,
                norm@ == normalized_mode_name(mode@),
                first_mode_called(norm@, 0) == first_mode_called(norm@, i as int),
            decreases 36 - i,
        {
            let m = Mode::known_mode(i);
            if m.is_called(&norm) {
                return Ok(m);
            }
            i = i + 1;
        }
        Err(string_of("Unknown scale"))
    }
}

impl<'a> vstd::std_specs::convert::TryFromSpecImpl<&'a str> for Mode {
    open spec fn obeys_try_from_spec() -> bool {
        false
    }

    open spec fn try_from_spec(v: &'a str) -> Result<Mode, String> {
        vstd::pervasive::arbitrary()
    }
}

// ---------------------------------------------------------------------------------------------
// Steps

/// Steps of the octave, strictly ascending, each below 12.
pub open spec fn ascending_steps(s: Seq<usize>) -> bool {
    &&& forall|i: int, j: int| 0 <= i < j < s.len() ==> #[trigger] s[i] < #[trigger] s[j]
    &&& forall|i: int| 0 <= i < s.len() ==> #[trigger] s[i] < 12
}

proof fn lemma_steps_upto(d: Seq<usize>, n: int)
    requires
        0 <= n <= 12,
        d.len() == 12,
    ensures
        forall|i: int| 0 <= i < steps_upto(d, n).len() ==> #[trigger] steps_upto(d, n)[i] < n,
        ascending_steps(steps_upto(d, n)),
        steps_upto(d, n).len() <= n,
        (exists|i: int| 0 <= i < n && #[trigger] d[i] != 0) ==> steps_upto(d, n).len() >= 1,
        forall|i: int|
            0 <= i < steps_upto(d, n).len() ==> #[trigger] d[steps_upto(d, n)[i] as int] != 0,
    decreases n,
{
    if n > 0 {
        lemma_steps_upto(d, n - 1);
        if exists|i: int| 0 <= i < n && #[trigger] d[i] != 0 {
            let i = choose|i: int| 0 <= i < n && #[trigger] d[i] != 0;
            if i < n - 1 {
                assert(exists|i: int| 0 <= i < n - 1 && #[trigger] d[i] != 0);
            }
        }
    }
}

/// The steps of a valid mode are strictly ascending, each below 12, and there is at least
/// one.
pub proof fn lemma_steps_of(d: Seq<usize>)
    requires
        valid_degrees(d),
    ensures
        ascending_steps(steps_of(d)),
        1 <= steps_of(d).len() <= 12,
        forall|i: int| 0 <= i < steps_of(d).len() ==> #[trigger] d[steps_of(d)[i] as int] != 0,
{
    lemma_steps_upto(d, 12);
}

/// The steps of the octave that lie in a mode with degrees `d`.
fn steps_of_degrees(d: &Vec<usize>) -> (r: Vec<usize>)
    requires
        d@.len() == 12,
    ensures
        r@ == steps_of(d@),
{
    let mut r: Vec<usize> = Vec::new();
    let mut i: usize = 0;
    while i < 12
        invariant
            i <= 12,
            d@.len() == 12,
            r@ == steps_upto(d@, i as int),
        decreases 12 - i,
    {
        if d[i] != 0 {
            r.push(i);
        }
        i = i + 1;
    }
    r
}

// ---------------------------------------------------------------------------------------------
// Scale note iterator

/// The key number of the note at position `p` (counted from 0) of the ascending notes of a
/// scale with root key `root`, starting in `octave`, with the given steps.
pub open spec fn note_key_at(root: int, octave: int, steps: Seq<usize>, p: int) -> int {
    root + 12 * (octave + p / (steps.len() as int)) + steps[p % (steps.len() as int)] as int
}

/// Iterator over the ascending notes of a `Scale`.
#[derive(Debug)]
pub struct ScaleNoteIter {
    root: u8,
    octave: u8,
    steps: Vec<usize>,
    step_index: usize,
}

impl ScaleNoteIter {
    #[verifier::type_invariant]
    spec fn well_formed(self) -> bool {
        &&& 1 <= self.steps@.len() <= 12
        &&& self.step_index < self.steps@.len()
        &&& ascending_steps(self.steps@)
    }

    /// Root key of the scale.
    pub closed spec fn root_view(&self) -> int {
        self.root as int
    }

    /// Octave of the next note.
    pub closed spec fn octave_view(&self) -> int {
        self.octave as int
    }

    /// Steps of the scale.
    pub closed spec fn steps_view(&self) -> Seq<usize> {
        self.steps@
    }

    /// Index, in the steps, of the next note.
    pub closed spec fn index_view(&self) -> int {
        self.step_index as int
    }

    /// Key number of the next note (it may lie above the key range).
    pub open spec fn next_key(&self) -> int {
        self.root_view() + 12 * self.octave_view() + self.steps_view()[self.index_view()] as int
    }

    fn new(root: u8, octave: u8, steps: Vec<usize>) -> (it: ScaleNoteIter)
        requires
            1 <= steps@.len() <= 12,
            ascending_steps(steps@),
        ensures
            it.root_view() == root,
            it.octave_view() == octave,
            it.steps_view() == steps@,
            it.index_view() == 0,
    {
        ScaleNoteIter { root, octave, steps, step_index: 0 }
    }

    /// The next note of the scale: the note of `next_key()` while that lies in the key range,
    /// else `None`. The position moves on by one step either way; the octave, a byte, must
    /// have room to move on.
    pub fn next(&mut self) -> (r: Option<Note>)
        requires
            old(self).index_view() + 1 < old(self).steps_view().len() || old(self).octave_view()
                < 255,
        ensures
            final(self).root_view() == old(self).root_view(),
            final(self).steps_view() == old(self).steps_view(),
            old(self).index_view() + 1 < old(self).steps_view().len() ==> {
                &&& final(self).octave_view() == old(self).octave_view()
                &&& final(self).index_view() == old(self).index_view() + 1
            },
            old(self).index_view() + 1 >= old(self).steps_view().len() ==> {
                &&& final(self).octave_view() == old(self).octave_view() + 1
                &&& final(self).index_view() == 0
            },
            r == if old(self).next_key() <= 127 {
                Some(Note::note_of(old(self).next_key()))
            } else {
                None::<Note>
            },
    {
        proof {
            use_type_invariant(&*self);
        }
        let key = self.root as usize + 12 * self.octave as usize + self.steps[self.step_index];
        if self.step_index + 1 >= self.steps.len() {
            self.octave = self.octave + 1;
            self.step_index = 0;
        } else {
            self.step_index = self.step_index + 1;
        }
        if key <= 127 {
            Some(Note::from_u8(key as u8))
        } else {
            None
        }
    }
}

impl Clone for ScaleNoteIter {
    fn clone(&self) -> (r: ScaleNoteIter)
        ensures
            r.root_view() == self.root_view(),
            r.octave_view() == self.octave_view(),
            r.steps_view() == self.steps_view(),
            r.index_view() == self.index_view(),
    {
        proof {
            use_type_invariant(self);
        }
        let steps = self.steps.clone();
        assert(steps@ == self.steps@);
        ScaleNoteIter {
            root: self.root,
            octave: self.octave,
            steps,
            step_index: self.step_index,
        }
    }
}

// ---------------------------------------------------------------------------------------------
// Scale

/// A musical scale: a root key, the octave of its root note, and a mode.
#[derive(Debug)]
pub struct Scale {
    key: u8,
    octave: u8,
    mode: Mode,
}

impl Scale {
    #[verifier::type_invariant]
    spec fn well_formed(self) -> bool {
        &&& self.key < 12
        &&& self.octave <= 21
    }

    /// Root key of the scale, 0 (C) to 11 (B).
    pub closed spec fn key_view(&self) -> int {
        self.key as int
    }

    /// Octave of the scale's root note.
    pub closed spec fn octave_view(&self) -> int {
        self.octave as int
    }

    /// The scale's mode.
    pub closed spec fn mode_view(&self) -> Mode {
        self.mode
    }

    /// Degrees of the scale's mode, per step of the octave (0: no step).
    pub open spec fn degrees_view(&self) -> Seq<usize> {
        self.mode_view().degrees_view()
    }

    /// A scale with the key and octave of `note` in the given mode.
    pub fn new(note: Note, mode: Mode) -> (s: Scale)
        ensures
            s.key_view() == note.value() % 12,
            s.octave_view() == note.value() / 12,
            s.mode_view() == mode,
    {
        let key = note.key();
        let octave = note.octave();
        Scale { key, octave, mode }
    }

    /// Names of the known modes, in lookup order.
    pub fn mode_names() -> (r: Vec<&'static str>)
        ensures
            r@.len() == 36,
            forall|i: int| 0 <= i < 36 ==> (#[trigger] r@[i])@ == mode_name(i),
    {
        let mut r: Vec<&'static str> = Vec::new();
        let mut i: usize = 0;
        while i < 36
            invariant
                i <= 36,
                r@.len() == i,
                forall|k: int| 0 <= k < i ==> (#[trigger] r@[k])@ == mode_name(k),
            decreases 36 - i,
        {
            let m = Mode::known_mode(i);
            r.push(m.name);
            i = i + 1;
        }
        r
    }

    /// Root key of the scale as number, 0 (C) to 11 (B).
    pub fn key(&self) -> (r: u8)
        ensures
            r == self.key_view(),
            r < 12,
    {
        proof {
            use_type_invariant(self);
        }
        self.key
    }

    /// Raw degrees of the scale's mode, per step of the octave (0: no step).
    pub fn degrees(&self) -> (r: Vec<usize>)
        ensures
            r@ == self.degrees_view(),
            valid_degrees(self.degrees_view()),
    {
        proof {
            use_type_invariant(&self.mode);
        }
        self.mode.degrees()
    }

    /// Steps (intervals from the root key) of the scale's mode, ascending.
    pub fn steps(&self) -> (r: Vec<usize>)
        ensures
            r@ == steps_of(self.degrees_view()),
    {
        proof {
            use_type_invariant(&self.mode);
        }
        steps_of_degrees(&self.mode.degrees)
    }

    /// Iterator over the ascending notes of the scale, starting at its root note.
    pub fn notes_iter(&self) -> (it: ScaleNoteIter)
        ensures
            it.root_view() == self.key_view(),
            it.octave_view() == self.octave_view(),
            it.steps_view() == steps_of(self.degrees_view()),
            it.index_view() == 0,
    {
        proof {
            use_type_invariant(&self.mode);
            lemma_steps_of(self.degrees_view());
        }
        ScaleNoteIter::new(self.key, self.octave, self.steps())
    }

    /// The notes of one octave of the scale, ascending from its root note; keys above the
    /// key range become the highest key.
    pub fn notes(&self) -> (r: Vec<Note>)
        ensures
            r@.len() == steps_of(self.degrees_view()).len(),
            forall|i: int|
                0 <= i < r@.len() ==> #[trigger] r@[i] == Note::note_of(
                    min_int(
                        steps_of(self.degrees_view())[i] + self.key_view() + 12 * self.octave_view(),
                        127,
                    ),
                ),
    {
        proof {
            use_type_invariant(self);
            use_type_invariant(&self.mode);
            lemma_steps_of(self.degrees_view());
        }
        let steps = self.steps();
        let mut r: Vec<Note> = Vec::new();
        let mut i: usize = 0;
        while i < steps.len()
            invariant
                i <= steps@.len(),
                steps@ == steps_of(self.degrees_view()),
                ascending_steps(steps@),
                self.key < 12,
                self.octave <= 21,
                r@.len() == i,
                forall|k: int|
                    0 <= k < i ==> #[trigger] r@[k] == Note::note_of(
                        min_int(steps@[k] + self.key_view() + 12 * self.octave_view(), 127),
                    ),
            decreases steps@.len() - i,
        {
            let n = steps[i] + self.key as usize + 12 * self.octave as usize;
            let m = if n < 0x7f {
                n
            } else {
                0x7f
            };
            r.push(Note::from_u8(m as u8));
            i = i + 1;
        }
        r
    }
}

impl Clone for Scale {
    fn clone(&self) -> (r: Scale)
        ensures
            r.key_view() == self.key_view(),
            r.octave_view() == self.octave_view(),
            r.mode_view().name_view() == self.mode_view().name_view(),
            r.mode_view().alt_names_view() == self.mode_view().alt_names_view(),
            r.degrees_view() == self.degrees_view(),
    {
        proof {
            use_type_invariant(self);
        }
        Scale { key: self.key, octave: self.octave, mode: self.mode.clone() }
    }
}

/// The smaller of two integers.
pub open spec fn min_int(a: int, b: int) -> int {
    if a <= b {
        a
    } else {
        b
    }
}

// ---------------------------------------------------------------------------------------------
// Positions in the ascending notes of a scale

/// Moving on by one position: the step index moves on, wrapping into the next octave.
proof fn lemma_next_position(p: int, len: int)
    requires
        0 <= p,
        1 <= len,
    ensures
        p % len + 1 < len ==> (p + 1) / len == p / len && (p + 1) % len == p % len + 1,
        p % len + 1 >= len ==> (p + 1) / len == p / len + 1 && (p + 1) % len == 0,
{
    lemma_fundamental_div_mod(p, len);
    lemma_mod_pos_bound(p, len);
    if p % len + 1 < len {
        assert(p + 1 == (p / len) * len + (p % len + 1)) by (nonlinear_arith)
            requires
                p == len * (p / len) + p % len,
        ;
        lemma_fundamental_div_mod_converse(p + 1, len, p / len, p % len + 1);
    } else {
        assert(p + 1 == (p / len + 1) * len + 0) by (nonlinear_arith)
            requires
                p == len * (p / len) + p % len,
                p % len + 1 == len,
        ;
        lemma_fundamental_div_mod_converse(p + 1, len, p / len + 1, 0);
    }
}

/// The notes of a scale ascend strictly.
pub proof fn lemma_note_key_at_ascending(root: int, octave: int, steps: Seq<usize>, p: int, q: int)
    requires
        ascending_steps(steps),
        steps.len() >= 1,
        0 <= p < q,
    ensures
        note_key_at(root, octave, steps, p) < note_key_at(root, octave, steps, q),
{
    let len = steps.len() as int;
    lemma_fundamental_div_mod(p, len);
    lemma_fundamental_div_mod(q, len);
    lemma_mod_pos_bound(p, len);
    lemma_mod_pos_bound(q, len);
    lemma_div_is_ordered(p, q, len);
    if p / len == q / len {
        assert(p % len < q % len);
        assert(steps[p % len] < steps[q % len]);
    } else {
        assert(steps[p % len] < 12);
        assert(12 * (p / len) + 12 <= 12 * (q / len));
    }
}

impl Scale {
    /// The key number of the note at position `p` (counted from 0) of the ascending notes of
    /// the scale, starting at its root note.
    pub open spec fn key_at(&self, p: int) -> int {
        note_key_at(self.key_view(), self.octave_view(), steps_of(self.degrees_view()), p)
    }

    /// A chord built on the scale: the notes at the degree `degree` (counted from 1) of the
    /// scale and at every second scale note above it, `count` notes in all, or fewer where
    /// they would lie above the key range.
    pub fn chord_from_degree(&self, degree: usize, count: usize) -> (r: Vec<Note>)
        requires
            1 <= degree <= 7,
            1 <= count <= 5,
        ensures
            r@.len() <= count,
            forall|j: int|
                0 <= j < r@.len() ==> {
                    &&& self.key_at(degree - 1 + 2 * j) <= 127
                    &&& #[trigger] r@[j] == Note::note_of(self.key_at(degree - 1 + 2 * j))
                },
            r@.len() < count ==> self.key_at(degree - 1 + 2 * r@.len()) > 127,
    {
        proof {
            use_type_invariant(self);
            use_type_invariant(&self.mode);
            lemma_steps_of(self.degrees_view());
        }
        let ghost steps = steps_of(self.degrees_view());
        let ghost len = steps.len() as int;
        let mut it = self.notes_iter();
        let mut r: Vec<Note> = Vec::new();
        let mut p: usize = 0;
        while p + 1 < degree
            invariant
                1 <= degree <= 7,
                p + 1 <= degree,
                steps == steps_of(self.degrees_view()),
                len == steps.len(),
                1 <= len <= 12,
                ascending_steps(steps),
                0 <= self.octave_view() <= 21,
                r@.len() == 0,
                it.root_view() == self.key_view(),
                it.steps_view() == steps,
                it.octave_view() == self.octave_view() + (p as int) / len,
                it.index_view() == (p as int) % len,
            decreases degree - p,
        {
            proof {
                lemma_next_position(p as int, len);
                lemma_fundamental_div_mod(p as int, len);
                lemma_mod_pos_bound(p as int, len);
            }
            let n = it.next();
            if n.is_none() {
                proof {
                    lemma_note_key_at_ascending(
                        self.key_view(),
                        self.octave_view(),
                        steps,
                        p as int,
                        degree - 1,
                    );
                }
                return r;
            }
            p = p + 1;
        }
        let mut idx: usize = 0;
        while r.len() < count
            invariant
                1 <= degree <= 7,
                1 <= count <= 5,
                p == degree - 1 + idx,
                idx <= 2 * count,
                idx % 2 == 0 ==> r@.len() * 2 == idx,
                idx % 2 == 1 ==> r@.len() * 2 == idx + 1,
                r@.len() <= count,
                steps == steps_of(self.degrees_view()),
                len == steps.len(),
                1 <= len <= 12,
                ascending_steps(steps),
                0 <= self.octave_view() <= 21,
                it.root_view() == self.key_view(),
                it.steps_view() == steps,
                it.octave_view() == self.octave_view() + (p as int) / len,
                it.index_view() == (p as int) % len,
                forall|j: int|
                    0 <= j < r@.len() ==> {
                        &&& self.key_at(degree - 1 + 2 * j) <= 127
                        &&& #[trigger] r@[j] == Note::note_of(self.key_at(degree - 1 + 2 * j))
                    },
            decreases 2 * count - idx,
        {
            proof {
                lemma_next_position(p as int, len);
                lemma_fundamental_div_mod(p as int, len);
                lemma_mod_pos_bound(p as int, len);
            }
            let n = it.next();
            match n {
                None => {
                    proof {
                        if idx % 2 == 1 {
                            lemma_note_key_at_ascending(
                                self.key_view(),
                                self.octave_view(),
                                steps,
                                p as int,
                                p + 1,
                            );
                        }
                    }
                    return r;
                },
                Some(note) => {
                    if idx % 2 == 0 {
                        r.push(note);
                    }
                    idx = idx + 1;
                    p = p + 1;
                },
            }
        }
        r
    }
}

// ---------------------------------------------------------------------------------------------
// Transposing notes into a scale

/// How strictly `Scale::transpose_with_strictness` forces transposed notes into the scale.
#[derive(Debug, Clone, Copy, PartialEq, Eq, Structural)]
pub enum TransposeStrictness {
    /// Notes of the scale other than its root move by scale degrees, but only while the
    /// transposed root key lies in the scale.
    ForceSecondaryInScaleNotesWhenRootInScale,
    /// Notes of the scale other than its root move by scale degrees.
    ForceSecondaryInScaleNotes,
    /// Notes of the scale move by scale degrees, the root note is quantized into the scale.
    ForceAllInScaleNotes,
    /// As `ForceAllInScaleNotes`, and notes outside the scale are quantized into it too.
    ForceAllNotes,
}

/// The larger of two integers.
pub open spec fn max_int(a: int, b: int) -> int {
    if a >= b {
        a
    } else {
        b
    }
}

/// The step of the octave, counted from the root key `key`, on which key number `x` lies.
pub open spec fn step_of(key: int, x: int) -> int {
    (x - key) % 12
}

/// The first step of the mode at or below step `s`, going down and wrapping around from the
/// lowest step to the highest (searching `fuel` steps further at most).
pub open spec fn step_at_or_below(d: Seq<usize>, s: int, fuel: nat) -> int
    decreases fuel,
{
    if d[s] != 0 || fuel == 0 {
        s
    } else {
        step_at_or_below(d, (s + 11) % 12, (fuel - 1) as nat)
    }
}

/// `offset`, from the root key, moved down onto the first step of the mode at or below it.
pub open spec fn quantized_offset(key: int, d: Seq<usize>, offset: int) -> int {
    let s = step_of(key, key + offset);
    offset - s + step_at_or_below(d, s, 11)
}

/// Key number `x` moved down onto the first step of the mode at or below it.
pub open spec fn quantized_key(key: int, d: Seq<usize>, x: int) -> int {
    quantized_offset(key, d, x - key) + key
}

/// The number of scale degrees that transposing the root key by `offset` moves through.
pub open spec fn degree_shift(key: int, d: Seq<usize>, offset: int) -> int {
    let q = quantized_offset(key, d, offset);
    let num = steps_of(d).len() as int;
    if q < 0 {
        -(((-q) / 12) * num) - min_int(num, max_int((-q) % 12 - 1, 0))
    } else {
        (q / 12) * num + min_int(num - steps_upto(d, 1).len(), max_int(q % 12 - 1, 0))
    }
}

/// The first step, from step `from` on, whose degree is `degree`; 12 if there is none.
pub open spec fn step_of_degree(d: Seq<usize>, degree: int, from: int) -> int
    decreases 12 - from,
{
    if from >= 12 {
        12
    } else if d[from] == degree {
        from
    } else {
        step_of_degree(d, degree, from + 1)
    }
}

/// The degree, in `1..=num`, that degree `t` wraps onto in a mode of `num` degrees.
pub open spec fn wrapped_degree(t: int, num: int) -> int {
    (t - 1) % num + 1
}

/// The number of octaves that degree `t` lies above (or, negative, below) the degrees
/// `1..=num`.
pub open spec fn degree_octaves(t: int, num: int) -> int {
    (t - 1) / num
}

/// The degree that the note on step `step` of the mode, of degree `degree`, moves to when
/// transposed by `offset`.
pub open spec fn moved_degree(key: int, d: Seq<usize>, degree: int, offset: int) -> int {
    wrapped_degree(degree + degree_shift(key, d, offset), steps_of(d).len() as int)
}

/// The key number that the note `n`, on step `step` of the mode, of degree `degree`, moves
/// to when transposed by `offset` scale degrees wise.
pub open spec fn moved_key(key: int, d: Seq<usize>, n: int, step: int, degree: int, offset: int)
    -> int {
    let t = degree + degree_shift(key, d, offset);
    let num = steps_of(d).len() as int;
    n - step + step_of_degree(d, wrapped_degree(t, num), 0) + 12 * degree_octaves(t, num)
}

impl Scale {
    /// Whether transposing note `n` by `offset` moves it by scale degrees: when the
    /// transposed note falls outside the scale, while `n` is a note of the scale other than
    /// its root (and, for the loosest strictness, the transposed root key is in the scale).
    pub open spec fn moves_by_degrees(&self, n: int, offset: int, strictness: TransposeStrictness)
        -> bool {
        let key = self.key_view();
        let d = self.degrees_view();
        &&& d[step_of(key, n + offset)] == 0
        &&& d[step_of(key, n)] != 0
        &&& step_of(key, n) != 0
        &&& (d[step_of(key, key + offset)] != 0 || strictness
            != TransposeStrictness::ForceSecondaryInScaleNotesWhenRootInScale)
    }

    /// Whether transposing note `n` by `offset` fails: it moves by scale degrees onto a
    /// degree that no step of the mode has.
    pub open spec fn transpose_fails(&self, n: int, offset: int, strictness: TransposeStrictness)
        -> bool {
        let key = self.key_view();
        let d = self.degrees_view();
        &&& self.moves_by_degrees(n, offset, strictness)
        &&& step_of_degree(d, moved_degree(key, d, d[step_of(key, n)] as int, offset), 0) == 12
    }

    /// The key number, before it is limited to the key range, that transposing note `n` by
    /// `offset` gives.
    pub open spec fn transposed_key(&self, n: int, offset: int, strictness: TransposeStrictness)
        -> int {
        let key = self.key_view();
        let d = self.degrees_view();
        let t = n + offset;
        if d[step_of(key, t)] != 0 {
            t
        } else if d[step_of(key, n)] == 0 {
            if strictness == TransposeStrictness::ForceAllNotes {
                quantized_key(key, d, t)
            } else {
                t
            }
        } else if step_of(key, n) == 0 {
            if strictness == TransposeStrictness::ForceAllNotes || strictness
                == TransposeStrictness::ForceAllInScaleNotes {
                quantized_key(key, d, t)
            } else {
                t
            }
        } else if self.moves_by_degrees(n, offset, strictness) {
            moved_key(key, d, n, step_of(key, n), d[step_of(key, n)] as int, offset)
        } else {
            t
        }
    }
}

/// The step found for a degree is a step of the octave that has the degree, or 12.
proof fn lemma_step_of_degree(d: Seq<usize>, degree: int, from: int)
    requires
        0 <= from,
    ensures
        0 <= step_of_degree(d, degree, from) <= 12,
        step_of_degree(d, degree, from) < 12 ==> d[step_of_degree(d, degree, from)] == degree,
    decreases 12 - from,
{
    if from < 12 && d[from] != degree {
        lemma_step_of_degree(d, degree, from + 1);
    }
}

/// A search for a step of the mode, down from any step, ends within 11 steps.
proof fn lemma_step_at_or_below(d: Seq<usize>, s: int, fuel: nat, i: int)
    requires
        d.len() == 12,
        0 <= s < 12,
        0 <= i < 12,
        d[i] != 0,
        (s - i) % 12 <= fuel,
    ensures
        d[step_at_or_below(d, s, fuel)] != 0,
        0 <= step_at_or_below(d, s, fuel) < 12,
    decreases fuel,
{
    if d[s] == 0 && fuel > 0 {
        lemma_step_at_or_below(d, (s + 11) % 12, (fuel - 1) as nat, i);
    }
}

impl Scale {
    /// The step of key number `x`, counted from the root key.
    fn step_of_key(&self, x: i64) -> (r: usize)
        requires
            i32::MIN - 512 <= x <= i32::MAX + 512,
        ensures
            r == step_of(self.key_view(), x as int),
            r < 12,
    {
        proof {
            use_type_invariant(self);
        }
        let mut offset: i64 = x - self.key as i64;
        while offset < 0
            invariant
                offset % 12 == (x - self.key_view()) % 12,
                i32::MIN - 1024 <= offset <= i32::MAX + 1024,
            decreases i32::MAX + 1024 - offset,
        {
            offset = offset + 12;
        }
        (offset % 12) as usize
    }

    /// `offset`, from the root key, moved down onto the first step of the mode at or below it.
    fn quantize_offset(&self, offset: i64) -> (r: i64)
        requires
            i32::MIN - 256 <= offset <= i32::MAX + 256,
        ensures
            r == quantized_offset(self.key_view(), self.degrees_view(), offset as int),
            offset - 11 <= r <= offset + 11,
    {
        proof {
            use_type_invariant(self);
            use_type_invariant(&self.mode);
        }
        let ghost d = self.degrees_view();
        let step = self.step_of_key(self.key as i64 + offset);
        let mut qstep = step;
        let ghost mut fuel: nat = 11;
        let ghost i = choose|i: int| 0 <= i < 12 && #[trigger] d[i] != 0;
        while self.mode.degrees[qstep] == 0
            invariant
                d == self.degrees_view(),
                d == self.mode.degrees@,
                valid_degrees(d),
                qstep < 12,
                0 <= i < 12,
                d[i] != 0,
                (qstep - i) % 12 <= fuel,
                step_at_or_below(d, qstep as int, fuel) == step_at_or_below(d, step as int, 11),
            decreases fuel,
        {
            qstep = (qstep + 12 - 1) % 12;
            proof {
                fuel = (fuel - 1) as nat;
            }
        }
        proof {
            lemma_step_at_or_below(d, step as int, 11, i);
        }
        offset - step as i64 + qstep as i64
    }
}

impl Scale {
    /// The first step of the mode whose degree is `degree`.
    fn degree_to_step(&self, degree: usize) -> (r: usize)
        requires
            1 <= degree <= 12,
            step_of_degree(self.degrees_view(), degree as int, 0) < 12,
        ensures
            r == step_of_degree(self.degrees_view(), degree as int, 0),
            r < 12,
    {
        proof {
            use_type_invariant(&self.mode);
        }
        let mut i: usize = 0;
        while i < 12
            invariant
                i <= 12,
                self.mode.degrees@.len() == 12,
                self.mode.degrees@ == self.degrees_view(),
                step_of_degree(self.degrees_view(), degree as int, 0) == step_of_degree(
                    self.degrees_view(),
                    degree as int,
                    i as int,
                ),
            decreases 12 - i,
        {
            if self.mode.degrees[i] == degree {
                return i;
            }
            i = i + 1;
        }
        proof {
            assert(false);
        }
        0
    }

    /// The key number that the in-scale note `note`, on step `scale_step` of the mode, of
    /// degree `degree`, moves to when transposed by `offset`, scale degree wise.
    fn transpose_impl(&self, note: i64, scale_step: usize, degree: usize, offset: i64) -> (r: i64)
        requires
            0 <= note <= 255,
            scale_step < 12,
            1 <= degree <= 12,
            i32::MIN <= offset <= i32::MAX,
            step_of_degree(
                self.degrees_view(),
                moved_degree(self.key_view(), self.degrees_view(), degree as int, offset as int),
                0,
            ) < 12,
        ensures
            r == moved_key(
                self.key_view(),
                self.degrees_view(),
                note as int,
                scale_step as int,
                degree as int,
                offset as int,
            ),
    {
        proof {
            use_type_invariant(self);
            use_type_invariant(&self.mode);
            lemma_steps_of(self.degrees_view());
        }
        let ghost key = self.key_view();
        let ghost d = self.degrees_view();
        let q = self.quantize_offset(offset);
        let steps = self.steps();
        let num = steps.len() as i64;
        let mut degree_diff: i64 = 0;
        if q < 0 {
            let a: u64 = (0 - q) as u64;
            let whole = (a / 12) as i64;
            let rem = (a % 12) as i64;
            assert(whole * num <= (a / 12) * 12) by (nonlinear_arith)
                requires
                    whole == a / 12,
                    0 <= whole,
                    num <= 12,
            ;
            degree_diff = degree_diff - whole * num;
            let mut remainder = rem;
            let mut i: usize = 12;
            while i > 0
                invariant
                    i <= 12,
                    d == self.degrees_view(),
                    d == self.mode.degrees@,
                    d.len() == 12,
                    num == steps_of(d).len(),
                    0 <= rem < 12,
                    0 <= whole <= 0x4000_0000,
                    1 <= num <= 12,
                    remainder == rem - (steps_of(d).len() - steps_upto(d, i as int).len()),
                    degree_diff == -(whole * num) - min_int(
                        steps_of(d).len() - steps_upto(d, i as int).len(),
                        max_int(rem - 1, 0),
                    ),
                    0 <= steps_of(d).len() - steps_upto(d, i as int).len() <= 12 - i,
                    0 <= whole * num <= 0x4_0000_0000,
                decreases i,
            {
                i = i - 1;
                if self.mode.degrees[i] != 0 {
                    remainder = remainder - 1;
                    if remainder > 0 {
                        degree_diff = degree_diff - 1;
                    }
                }
            }
        } else {
            let a: u64 = q as u64;
            let whole = (a / 12) as i64;
            let rem = (a % 12) as i64;
            assert(whole * num <= (a / 12) * 12) by (nonlinear_arith)
                requires
                    whole == a / 12,
                    0 <= whole,
                    num <= 12,
            ;
            degree_diff = degree_diff + whole * num;
            let mut remainder = rem;
            let mut i: usize = 1;
            while i < 12
                invariant
                    1 <= i <= 12,
                    d == self.degrees_view(),
                    d == self.mode.degrees@,
                    d.len() == 12,
                    num == steps_of(d).len(),
                    0 <= rem < 12,
                    0 <= whole <= 0x4000_0000,
                    1 <= num <= 12,
                    remainder == rem - (steps_upto(d, i as int).len() - steps_upto(d, 1).len()),
                    degree_diff == whole * num + min_int(
                        steps_upto(d, i as int).len() - steps_upto(d, 1).len(),
                        max_int(rem - 1, 0),
                    ),
                    0 <= steps_upto(d, i as int).len() - steps_upto(d, 1).len() <= i - 1,
                    0 <= whole * num <= 0x4_0000_0000,
                decreases 12 - i,
            {
                if self.mode.degrees[i] != 0 {
                    remainder = remainder - 1;
                    if remainder > 0 {
                        degree_diff = degree_diff + 1;
                    }
                }
                i = i + 1;
            }
        }
        assert(degree_diff == degree_shift(key, d, offset as int));
        assert(-0x4_0000_0100 <= degree_diff <= 0x4_0000_0100);
        let ghost t0 = degree as int + degree_diff;
        let mut t: i64 = degree as i64 + degree_diff;
        let mut octave_offset: i64 = 0;
        while t > num
            invariant
                1 <= num <= 12,
                t0 == t + octave_offset * num,
                -0x8_0000_0000 <= t0 <= 0x8_0000_0000,
                -0x8_0000_0000 <= t <= 0x8_0000_0000,
                0 <= octave_offset <= 0x10_0000_0000,
            decreases t,
        {
            assert((octave_offset + 1) * num == octave_offset * num + num) by (nonlinear_arith);
            t = t - num;
            octave_offset = octave_offset + 1;
            assert(octave_offset <= 0x10_0000_0000) by (nonlinear_arith)
                requires
                    octave_offset * num == t0 - t,
                    1 <= num,
                    0 <= octave_offset,
                    -0x8_0000_0000 <= t0 <= 0x8_0000_0000,
                    -0x8_0000_0000 <= t <= 0x8_0000_0000,
            ;
        }
        while t < 1
            invariant
                1 <= num <= 12,
                t0 == t + octave_offset * num,
                -0x8_0000_0000 <= t0 <= 0x8_0000_0000,
                -0x8_0000_0000 <= t <= num,
                -0x10_0000_0000 <= octave_offset <= 0x10_0000_0000,
            decreases num - t,
        {
            assert((octave_offset - 1) * num == octave_offset * num - num) by (nonlinear_arith);
            t = t + num;
            octave_offset = octave_offset - 1;
            assert(-0x10_0000_0000 <= octave_offset <= 0x10_0000_0000) by (nonlinear_arith)
                requires
                    octave_offset * num == t0 - t,
                    1 <= num,
                    -0x8_0000_0000 <= t0 <= 0x8_0000_0000,
                    -0x8_0000_0000 <= t <= 0x8_0000_0000,
            ;
        }
        proof {
            assert(t0 - 1 == octave_offset * num + (t - 1));
            lemma_fundamental_div_mod_converse(t0 - 1, num as int, octave_offset as int, t - 1);
        }
        let new_step = self.degree_to_step(t as usize);
        note - scale_step as i64 + new_step as i64 + octave_offset * 12
    }
}

impl Scale {
    /// Transposes `note` by `offset` keys into the scale, as strictly as `strictness` asks:
    /// a transposed note that falls outside the scale is moved by scale degrees (when `note`
    /// is a note of the scale other than its root) or quantized down into the scale (when
    /// `note` is the root, or outside the scale), or kept, see `transposed_key`. The result
    /// is limited to the key range. The transposed key number `note + offset` must fit in an
    /// `i32`; a transposition onto a degree that the mode has no step for (see
    /// `transpose_fails`) finds no note and is left out.
    pub fn transpose_with_strictness(
        &self,
        note: Note,
        offset: i32,
        strictness: TransposeStrictness,
    ) -> (r: Note)
        requires
            note.value() + offset <= i32::MAX,
            !self.transpose_fails(note.value(), offset as int, strictness),
        ensures
            r == Note::note_of(clamp(self.transposed_key(note.value(), offset as int, strictness), 0, 127)),
    {
        proof {
            use_type_invariant(self);
            use_type_invariant(&self.mode);
        }
        let n = note.to_u8() as i64;
        let offset = offset as i64;
        let mut transposed_note: i64 = n + offset;
        let transposed_scale_step = self.step_of_key(transposed_note);
        if self.mode.degrees[transposed_scale_step] == 0 {
            let original_note_scale_step = self.step_of_key(n);
            let original_note_degree = self.mode.degrees[original_note_scale_step];
            let original_note_in_scale = original_note_degree != 0;
            let original_is_root = original_note_scale_step == 0;
            if !original_note_in_scale {
                if strictness == TransposeStrictness::ForceAllNotes {
                    transposed_note = self.quantize_offset(transposed_note - self.key as i64)
                        + self.key as i64;
                }
            } else if original_is_root {
                if strictness == TransposeStrictness::ForceAllNotes || strictness
                    == TransposeStrictness::ForceAllInScaleNotes {
                    transposed_note = self.quantize_offset(transposed_note - self.key as i64)
                        + self.key as i64;
                }
            } else {
                let transposed_root_degree =
                    self.mode.degrees[self.step_of_key(self.key as i64 + offset)];
                let transposed_root_in_scale = transposed_root_degree != 0;
                if transposed_root_in_scale || strictness
                    != TransposeStrictness::ForceSecondaryInScaleNotesWhenRootInScale {
                    proof {
                        lemma_step_of_degree(
                            self.degrees_view(),
                            moved_degree(
                                self.key_view(),
                                self.degrees_view(),
                                original_note_degree as int,
                                offset as int,
                            ),
                            0,
                        );
                    }
                    transposed_note = self.transpose_impl(
                        n,
                        original_note_scale_step,
                        original_note_degree,
                        offset,
                    );
                }
            }
        }
        let clamped: i64 = if transposed_note < 0 {
            0
        } else if transposed_note > 0x7f {
            0x7f
        } else {
            transposed_note
        };
        Note::from_u8(clamped as u8)
    }

    /// Transposes `note` by `offset` keys into the scale, with the strictest strictness
    /// (`TransposeStrictness::ForceAllNotes`).
    pub fn transpose(&self, note: Note, offset: i32) -> (r: Note)
        requires
            note.value() + offset <= i32::MAX,
            !self.transpose_fails(note.value(), offset as int, TransposeStrictness::ForceAllNotes),
        ensures
            r == Note::note_of(
                clamp(
                    self.transposed_key(note.value(), offset as int, TransposeStrictness::ForceAllNotes),
                    0,
                    127,
                ),
            ),
    {
        self.transpose_with_strictness(note, offset, TransposeStrictness::ForceAllNotes)
    }
}

impl<'a> TryFrom<(Note, &'a str)> for Scale {
    type Error = String;

    /// A scale with the key and octave of the note, in the known mode of the given name.
    fn try_from(v: (Note, &'a str)) -> (r: Result<Scale, String>)
        ensures
            match r {
                Ok(s) => {
                    &&& mode_index(v.1@) < 36
                    &&& s.key_view() == v.0.value() % 12
                    &&& s.octave_view() == v.0.value() / 12
                    &&& is_known_mode(s.mode_view(), mode_index(v.1@))
                },
                Err(e) => mode_index(v.1@) == 36 && e@ == "Unknown scale"@,
            },
    {
        let (note, name) = v;
        match Mode::try_from(name) {
            Ok(mode) => Ok(Scale::new(note, mode)),
            Err(e) => Err(e),
        }
    }
}

impl<'a> vstd::std_specs::convert::TryFromSpecImpl<(Note, &'a str)> for Scale {
    open spec fn obeys_try_from_spec() -> bool {
        false
    }

    open spec fn try_from_spec(v: (Note, &'a str)) -> Result<Scale, String> {
        vstd::pervasive::arbitrary()
    }
}

impl<'a> TryFrom<(Note, &'a Vec<i32>)> for Scale {
    type Error = String;

    /// A scale with the key and octave of the note, in the custom mode of the given
    /// intervals.
    fn try_from(v: (Note, &'a Vec<i32>)) -> (r: Result<Scale, String>)
        ensures
            match r {
                Ok(s) => {
                    &&& intervals_error(v.1@) is None
                    &&& s.key_view() == v.0.value() % 12
                    &&& s.octave_view() == v.0.value() / 12
                    &&& s.mode_view().name_view() == "custom scale"@
                    &&& s.degrees_view() == custom_degrees(v.1@, v.1@.len() as int)
                },
                Err(e) => intervals_error(v.1@) == Some(e@),
            },
    {
        let (note, intervals) = v;
        match Mode::try_from(intervals) {
            Ok(mode) => Ok(Scale::new(note, mode)),
            Err(e) => Err(e),
        }
    }
}

impl<'a> vstd::std_specs::convert::TryFromSpecImpl<(Note, &'a Vec<i32>)> for Scale {
    open spec fn obeys_try_from_spec() -> bool {
        false
    }

    open spec fn try_from_spec(v: (Note, &'a Vec<i32>)) -> Result<Scale, String> {
        vstd::pervasive::arbitrary()
    }
}

// ---------------------------------------------------------------------------------------------
// Laws of transposition

/// A key number `base + 12 * m + r`, where `base` lies on the root key and `r` is a step,
/// lies on step `r`.
proof fn lemma_step_of_shifted(key: int, x: int, m: int, r: int)
    requires
        0 <= r < 12,
        x - key == 12 * m + r,
    ensures
        step_of(key, x) == r,
{
    lemma_fundamental_div_mod_converse(x - key, 12, m, r);
}

/// A quantized key lies on a step of the mode.
proof fn lemma_quantized_key_in_mode(key: int, d: Seq<usize>, x: int)
    requires
        valid_degrees(d),
    ensures
        d[step_of(key, quantized_key(key, d, x))] != 0,
{
    let o = x - key;
    let s0 = step_of(key, key + o);
    assert(s0 == o % 12);
    let i = choose|i: int| 0 <= i < 12 && #[trigger] d[i] != 0;
    lemma_step_at_or_below(d, s0, 11, i);
    let qs = step_at_or_below(d, s0, 11);
    lemma_fundamental_div_mod(o, 12);
    lemma_step_of_shifted(key, quantized_key(key, d, x), o / 12, qs);
}

/// Transposing any note with `ForceAllNotes`, or a note of the scale with
/// `ForceAllInScaleNotes`, gives a key on a step of the scale (before it is limited to the
/// key range).
pub proof fn lemma_transposed_key_in_scale(
    s: Scale,
    n: int,
    offset: int,
    strictness: TransposeStrictness,
)
    requires
        valid_degrees(s.degrees_view()),
        0 <= s.key_view() < 12,
        strictness == TransposeStrictness::ForceAllNotes || (strictness
            == TransposeStrictness::ForceAllInScaleNotes && s.degrees_view()[step_of(
            s.key_view(),
            n,
        )] != 0),
        !s.transpose_fails(n, offset, strictness),
    ensures
        s.degrees_view()[step_of(s.key_view(), s.transposed_key(n, offset, strictness))] != 0,
{
    let key = s.key_view();
    let d = s.degrees_view();
    let t = n + offset;
    if d[step_of(key, t)] != 0 {
    } else if d[step_of(key, n)] == 0 || step_of(key, n) == 0 {
        lemma_quantized_key_in_mode(key, d, t);
    } else {
        let degree = d[step_of(key, n)] as int;
        let td = moved_degree(key, d, degree, offset);
        lemma_step_of_degree(d, td, 0);
        let st = step_of_degree(d, td, 0);
        assert(s.moves_by_degrees(n, offset, strictness));
        assert(st < 12);
        let num = steps_of(d).len() as int;
        lemma_steps_of(d);
        let tt = degree + degree_shift(key, d, offset);
        lemma_mod_bound(tt - 1, num);
        assert(d[st] == td && td >= 1);
        lemma_fundamental_div_mod(n - key, 12);
        lemma_step_of_shifted(
            key,
            moved_key(key, d, n, step_of(key, n), degree, offset),
            (n - key) / 12 + degree_octaves(tt, num),
            st,
        );
    }
}

/// Transposing a note of the scale by whole octaves moves it by those octaves, whatever the
/// strictness.
pub proof fn lemma_transpose_by_octaves(
    s: Scale,
    n: int,
    octaves: int,
    strictness: TransposeStrictness,
)
    requires
        valid_degrees(s.degrees_view()),
        s.degrees_view()[step_of(s.key_view(), n)] != 0,
    ensures
        s.transposed_key(n, 12 * octaves, strictness) == n + 12 * octaves,
{
    let key = s.key_view();
    lemma_fundamental_div_mod(n - key, 12);
    lemma_mod_bound(n - key, 12);
    lemma_step_of_shifted(key, n + 12 * octaves, (n - key) / 12 + octaves, step_of(key, n));
}

// ---------------------------------------------------------------------------------------------
// Laws of custom modes

proof fn lemma_custom_degrees_upto(iv: Seq<i32>, m: int)
    requires
        0 <= m <= iv.len() <= 11,
        forall|k: int| 0 <= k < iv.len() ==> 0 <= #[trigger] iv[k] < 12,
        forall|j: int, k: int| 0 <= j < k < iv.len() ==> #[trigger] iv[j] < #[trigger] iv[k],
    ensures
        custom_degrees(iv, m).len() == 12,
        forall|k: int| 0 <= k < m ==> custom_degrees(iv, m)[#[trigger] iv[k] as int] == k + 1,
        forall|j: int|
            0 <= j < 12 && (forall|k: int| 0 <= k < m ==> #[trigger] iv[k] != j) ==> (
            #[trigger] custom_degrees(iv, m)[j]) == 0,
    decreases m,
{
    if m > 0 {
        lemma_custom_degrees_upto(iv, m - 1);
        let prev = custom_degrees(iv, m - 1);
        assert(custom_degrees(iv, m) == prev.update(iv[m - 1] as int, m as usize));
        assert forall|k: int| 0 <= k < m implies custom_degrees(iv, m)[#[trigger] iv[k] as int]
            == k + 1 by {
            if k < m - 1 {
                assert(iv[k] < iv[m - 1]);
            }
        }
        assert forall|j: int|
            0 <= j < 12 && (forall|k: int| 0 <= k < m ==> #[trigger] iv[k] != j) implies (
            #[trigger] custom_degrees(iv, m)[j]) == 0 by {
            assert(iv[m - 1] != j);
            assert forall|k: int| 0 <= k < m - 1 implies #[trigger] iv[k] != j by {
                assert(iv[k] != j);
            }
        }
    }
}

/// A custom mode built from strictly ascending intervals gives the step of each interval
/// the interval's position, counted from 1, and no degree to the other steps.
pub proof fn lemma_custom_degrees(iv: Seq<i32>)
    requires
        intervals_error(iv) is None,
        forall|j: int, k: int| 0 <= j < k < iv.len() ==> #[trigger] iv[j] < #[trigger] iv[k],
    ensures
        forall|k: int|
            0 <= k < iv.len() ==> custom_degrees(iv, iv.len() as int)[#[trigger] iv[k] as int]
                == k + 1,
        forall|j: int|
            0 <= j < 12 && (forall|k: int| 0 <= k < iv.len() ==> #[trigger] iv[k] != j) ==> (
            #[trigger] custom_degrees(iv, iv.len() as int)[j]) == 0,
{
    assert forall|k: int| 0 <= k < iv.len() implies 0 <= #[trigger] iv[k] < 12 by {
        if !(0 <= iv[k] < 12) {
            assert(exists|k: int| 0 <= k < iv.len() && !(0 <= #[trigger] iv[k] < 12));
        }
    }
    lemma_custom_degrees_upto(iv, iv.len() as int);
}

// ---------------------------------------------------------------------------------------------
// Laws of mode names

/// Two lists of words, word by word equal when ASCII case is ignored.
pub open spec fn words_eq_ignore_case(a: Seq<Seq<char>>, b: Seq<Seq<char>>) -> bool {
    &&& a.len() == b.len()
    &&& forall|i: int| 0 <= i < a.len() ==> eq_ignore_case(#[trigger] a[i], b[i])
}

/// Characters equal when ASCII case is ignored are both spaces or neither is one, and both
/// white space or neither is.
proof fn lemma_lower_code_kind(a: char, b: char)
    requires
        lower_code(a) == lower_code(b),
    ensures
        (a == ' ') == (b == ' '),
        is_white_space(a) == is_white_space(b),
        is_white_space(a) ==> a == b,
{
}

proof fn lemma_eq_ignore_case_transitive(a: Seq<char>, b: Seq<char>, c: Seq<char>)
    requires
        eq_ignore_case(a, b),
        eq_ignore_case(b, c),
    ensures
        eq_ignore_case(a, c),
        eq_ignore_case(b, a),
{
    assert forall|i: int| 0 <= i < a.len() implies #[trigger] lower_code(a[i]) == lower_code(
        c[i],
    ) by {
        assert(lower_code(a[i]) == lower_code(b[i]));
        assert(lower_code(b[i]) == lower_code(c[i]));
    }
    assert forall|i: int| 0 <= i < b.len() implies #[trigger] lower_code(b[i]) == lower_code(
        a[i],
    ) by {
        assert(lower_code(a[i]) == lower_code(b[i]));
    }
}

proof fn lemma_eq_ignore_case_reflexive(a: Seq<char>)
    ensures
        eq_ignore_case(a, a),
{
}

proof fn lemma_eq_ignore_case_push(a: Seq<char>, b: Seq<char>, x: char, y: char)
    requires
        eq_ignore_case(a, b),
        lower_code(x) == lower_code(y),
    ensures
        eq_ignore_case(a.push(x), b.push(y)),
{
    assert forall|i: int| 0 <= i < a.push(x).len() implies #[trigger] lower_code(a.push(x)[i])
        == lower_code(b.push(y)[i]) by {
        if i < a.len() {
            assert(lower_code(a[i]) == lower_code(b[i]));
        }
    }
}

proof fn lemma_eq_ignore_case_drop_last(a: Seq<char>, b: Seq<char>)
    requires
        eq_ignore_case(a, b),
        a.len() > 0,
    ensures
        eq_ignore_case(a.drop_last(), b.drop_last()),
        lower_code(a.last()) == lower_code(b.last()),
{
    assert(lower_code(a[a.len() - 1]) == lower_code(b[b.len() - 1]));
    assert forall|i: int| 0 <= i < a.drop_last().len() implies #[trigger] lower_code(
        a.drop_last()[i],
    ) == lower_code(b.drop_last()[i]) by {
        assert(lower_code(a[i]) == lower_code(b[i]));
    }
}

proof fn lemma_eq_ignore_case_drop_first(a: Seq<char>, b: Seq<char>)
    requires
        eq_ignore_case(a, b),
        a.len() > 0,
    ensures
        eq_ignore_case(a.drop_first(), b.drop_first()),
        lower_code(a[0]) == lower_code(b[0]),
{
    assert(lower_code(a[0]) == lower_code(b[0]));
    assert forall|i: int| 0 <= i < a.drop_first().len() implies #[trigger] lower_code(
        a.drop_first()[i],
    ) == lower_code(b.drop_first()[i]) by {
        assert(lower_code(a[i + 1]) == lower_code(b[i + 1]));
    }
}

proof fn lemma_words_eq_ignore_case(s: Seq<char>, t: Seq<char>)
    requires
        eq_ignore_case(s, t),
    ensures
        words_eq_ignore_case(words(s), words(t)),
    decreases s.len(),
{
    if s.len() > 0 {
        lemma_eq_ignore_case_drop_last(s, t);
        lemma_words_eq_ignore_case(s.drop_last(), t.drop_last());
        lemma_lower_code_kind(s.last(), t.last());
        let ws = words(s.drop_last());
        let wt = words(t.drop_last());
        if s.last() != ' ' {
            if s.len() > 1 {
                assert(lower_code(s[s.len() - 2]) == lower_code(t[t.len() - 2]));
                lemma_lower_code_kind(s[s.len() - 2], t[t.len() - 2]);
            }
            if s.len() > 1 && s[s.len() - 2] != ' ' && ws.len() > 0 {
                assert(eq_ignore_case(ws[ws.len() - 1], wt[wt.len() - 1]));
                lemma_eq_ignore_case_push(ws.last(), wt.last(), s.last(), t.last());
                let a = ws.drop_last().push(ws.last().push(s.last()));
                let b = wt.drop_last().push(wt.last().push(t.last()));
                assert forall|i: int| 0 <= i < a.len() implies eq_ignore_case(
                    #[trigger] a[i],
                    b[i],
                ) by {
                    if i < a.len() - 1 {
                        assert(eq_ignore_case(ws[i], wt[i]));
                    }
                }
            } else {
                let a = ws.push(seq![s.last()]);
                let b = wt.push(seq![t.last()]);
                assert(eq_ignore_case(seq![s.last()], seq![t.last()])) by {
                    assert(lower_code(seq![s.last()][0]) == lower_code(seq![t.last()][0]));
                }
                assert forall|i: int| 0 <= i < a.len() implies eq_ignore_case(
                    #[trigger] a[i],
                    b[i],
                ) by {
                    if i < a.len() - 1 {
                        assert(eq_ignore_case(ws[i], wt[i]));
                    }
                }
            }
        }
    }
}

proof fn lemma_synonym_eq_ignore_case(a: Seq<char>, b: Seq<char>)
    requires
        eq_ignore_case(a, b),
    ensures
        eq_ignore_case(synonym(a), synonym(b)),
{
    lemma_eq_ignore_case_transitive(a, b, b);
    assert forall|k: Seq<char>| eq_ignore_case(a, k) <==> eq_ignore_case(b, k) by {
        if eq_ignore_case(a, k) {
            lemma_eq_ignore_case_transitive(b, a, k);
        }
        if eq_ignore_case(b, k) {
            lemma_eq_ignore_case_transitive(a, b, k);
        }
    }
    lemma_eq_ignore_case_reflexive(synonym(a));
}

proof fn lemma_join_eq_ignore_case(a: Seq<Seq<char>>, b: Seq<Seq<char>>)
    requires
        words_eq_ignore_case(a, b),
    ensures
        eq_ignore_case(join_words(a), join_words(b)),
    decreases a.len(),
{
    if a.len() == 1 {
        assert(eq_ignore_case(a[0], b[0]));
    } else if a.len() > 1 {
        let ia = a.drop_last();
        let ib = b.drop_last();
        assert forall|i: int| 0 <= i < ia.len() implies eq_ignore_case(#[trigger] ia[i], ib[i]) by {
            assert(eq_ignore_case(a[i], b[i]));
        }
        lemma_join_eq_ignore_case(ia, ib);
        assert(eq_ignore_case(a[a.len() - 1], b[b.len() - 1]));
        let ja = join_words(ia) + seq![' '] + a.last();
        let jb = join_words(ib) + seq![' '] + b.last();
        let n = join_words(ia).len();
        assert forall|i: int| 0 <= i < ja.len() implies #[trigger] lower_code(ja[i]) == lower_code(
            jb[i],
        ) by {
            if i < n {
                assert(lower_code(join_words(ia)[i]) == lower_code(join_words(ib)[i]));
            } else if i > n {
                assert(lower_code(a.last()[i - n - 1]) == lower_code(b.last()[i - n - 1]));
            }
        }
    }
}

proof fn lemma_trim_eq_ignore_case(s: Seq<char>, t: Seq<char>)
    requires
        eq_ignore_case(s, t),
    ensures
        eq_ignore_case(trim_start(s), trim_start(t)),
        eq_ignore_case(trim_end(s), trim_end(t)),
    decreases s.len(),
{
    if s.len() > 0 {
        lemma_eq_ignore_case_drop_first(s, t);
        lemma_eq_ignore_case_drop_last(s, t);
        lemma_lower_code_kind(s[0], t[0]);
        lemma_lower_code_kind(s.last(), t.last());
        lemma_trim_eq_ignore_case(s.drop_first(), t.drop_first());
        lemma_trim_eq_ignore_case(s.drop_last(), t.drop_last());
    }
}

proof fn lemma_first_mode_called_eq_ignore_case(a: Seq<char>, b: Seq<char>, i: int)
    requires
        eq_ignore_case(a, b),
    ensures
        first_mode_called(a, i) == first_mode_called(b, i),
    decreases 36 - i,
{
    if i < 36 {
        assert(mode_is_called(i, a) == mode_is_called(i, b)) by {
            lemma_eq_ignore_case_transitive(a, b, b);
            if eq_ignore_case(mode_name(i), a) {
                lemma_eq_ignore_case_transitive(mode_name(i), a, b);
            }
            if eq_ignore_case(mode_name(i), b) {
                lemma_eq_ignore_case_transitive(mode_name(i), b, a);
            }
            assert forall|j: int|
                0 <= j < mode_alt_names(i).len() && eq_ignore_case(
                    #[trigger] mode_alt_names(i)[j],
                    a,
                ) implies eq_ignore_case(mode_alt_names(i)[j], b) by {
                lemma_eq_ignore_case_transitive(mode_alt_names(i)[j], a, b);
            }
            assert forall|j: int|
                0 <= j < mode_alt_names(i).len() && eq_ignore_case(
                    #[trigger] mode_alt_names(i)[j],
                    b,
                ) implies eq_ignore_case(mode_alt_names(i)[j], a) by {
                lemma_eq_ignore_case_transitive(mode_alt_names(i)[j], b, a);
            }
        }
        lemma_first_mode_called_eq_ignore_case(a, b, i + 1);
    }
}

/// Mode names are looked up ignoring ASCII case: two names that differ in ASCII case only
/// select the same mode (or none).
pub proof fn lemma_mode_lookup_ignores_case(s: Seq<char>, t: Seq<char>)
    requires
        eq_ignore_case(s, t),
    ensures
        mode_index(s) == mode_index(t),
{
    lemma_words_eq_ignore_case(s, t);
    let ws = words(s).map_values(|w: Seq<char>| synonym(w));
    let wt = words(t).map_values(|w: Seq<char>| synonym(w));
    assert forall|i: int| 0 <= i < ws.len() implies eq_ignore_case(#[trigger] ws[i], wt[i]) by {
        assert(eq_ignore_case(words(s)[i], words(t)[i]));
        lemma_synonym_eq_ignore_case(words(s)[i], words(t)[i]);
    }
    lemma_join_eq_ignore_case(ws, wt);
    lemma_trim_eq_ignore_case(join_words(ws), join_words(wt));
    lemma_trim_eq_ignore_case(trim_start(join_words(ws)), trim_start(join_words(wt)));
    lemma_first_mode_called_eq_ignore_case(normalized_mode_name(s), normalized_mode_name(t), 0);
}

proof fn lemma_words_leading_space(s: Seq<char>)
    ensures
        words(seq![' '] + s) == words(s),
    decreases s.len(),
{
    let t = seq![' '] + s;
    if s.len() == 0 {
        assert(t =~= seq![' ']);
        assert(t.drop_last() =~= Seq::<char>::empty());
        assert(words(t) == words(t.drop_last()));
    } else {
        lemma_words_leading_space(s.drop_last());
        assert(t.drop_last() =~= seq![' '] + s.drop_last());
        let w = words(s.drop_last());
        assert(words(t.drop_last()) == w);
        assert(t.last() == s.last());
        if s.len() == 1 {
            assert(t[t.len() - 2] == ' ');
        } else {
            assert(t[t.len() - 2] == s[s.len() - 2]);
        }
        if s.last() == ' ' {
            assert(words(t) == w);
        } else if s.len() > 1 && s[s.len() - 2] != ' ' {
            assert(words(t) == w.drop_last().push(w.last().push(s.last())));
        } else {
            assert(words(t) == w.push(seq![s.last()]));
        }
    }
}

/// Spaces before and after a mode name do not change the mode it selects.
pub proof fn lemma_mode_lookup_ignores_outer_spaces(s: Seq<char>)
    ensures
        mode_index(seq![' '] + s + seq![' ']) == mode_index(s),
{
    let t = seq![' '] + s + seq![' '];
    assert(t.drop_last() =~= seq![' '] + s);
    assert(t.last() == ' ');
    lemma_words_leading_space(s);
    assert(words(t) == words(s));
}

// ---------------------------------------------------------------------------------------------
// Known modes transpose without failing

/// Whether, from step `i` on, the steps in the mode have the degrees `next`, `next + 1`, ...
/// in ascending order.
pub open spec fn count_up_from(d: Seq<usize>, i: int, next: int) -> bool
    decreases 12 - i,
{
    if i >= 12 {
        true
    } else if d[i] == 0 {
        count_up_from(d, i + 1, next)
    } else {
        d[i] == next && count_up_from(d, i + 1, next + 1)
    }
}

proof fn lemma_count_up_degree(d: Seq<usize>, i: int)
    requires
        d.len() == 12,
        0 <= i <= 12,
        count_up_from(d, i, steps_upto(d, i).len() as int + 1),
    ensures
        forall|j: int| i <= j < 12 && d[j] != 0 ==> #[trigger] d[j] == steps_upto(d, j).len() + 1,
    decreases 12 - i,
{
    if i < 12 {
        assert(steps_upto(d, i + 1).len() == steps_upto(d, i).len() + (if d[i] != 0 {
            1int
        } else {
            0
        }));
        lemma_count_up_degree(d, i + 1);
    }
}

proof fn lemma_steps_upto_position(d: Seq<usize>, n: int, k: int)
    requires
        d.len() == 12,
        0 <= n <= 12,
        0 <= k < steps_upto(d, n).len(),
    ensures
        0 <= steps_upto(d, n)[k] < n,
        steps_upto(d, steps_upto(d, n)[k] as int).len() == k,
        d[steps_upto(d, n)[k] as int] != 0,
    decreases n,
{
    if n > 0 {
        if d[n - 1] != 0 && k == steps_upto(d, n - 1).len() {
        } else {
            lemma_steps_upto_position(d, n - 1, k);
        }
    }
}

proof fn lemma_step_of_degree_found(d: Seq<usize>, degree: int, from: int, i: int)
    requires
        0 <= from <= i < 12,
        d[i] == degree,
    ensures
        step_of_degree(d, degree, from) <= i,
    decreases i - from,
{
    if d[from] != degree {
        lemma_step_of_degree_found(d, degree, from + 1, i);
    }
}

/// In a mode whose steps have the degrees 1, 2, ... in ascending order, every degree up to
/// the number of steps has a step.
proof fn lemma_counting_mode_has_each_degree(d: Seq<usize>, t: int)
    requires
        d.len() == 12,
        count_up_from(d, 0, 1),
        1 <= t <= steps_of(d).len(),
    ensures
        step_of_degree(d, t, 0) < 12,
{
    assert(steps_upto(d, 0).len() == 0);
    lemma_count_up_degree(d, 0);
    lemma_steps_upto_position(d, 12, t - 1);
    let st = steps_of(d)[t - 1] as int;
    assert(d[st] == t);
    lemma_step_of_degree_found(d, t, 0, st);
}

proof fn lemma_known_modes_count_up(k: int)
    requires
        0 <= k < 36,
        k != 15,
    ensures
        count_up_from(mode_degrees(k), 0, 1),
        mode_degrees(k).len() == 12,
        mode_degrees(k)[0] != 0,
{
    reveal_with_fuel(count_up_from, 13);
        if k == 0 {
            assert(count_up_from(mode_degrees(0), 0, 1));
        } else if k == 1 {
            assert(count_up_from(mode_degrees(1), 0, 1));
        } else if k == 2 {
            assert(count_up_from(mode_degrees(2), 0, 1));
        } else if k == 3 {
            assert(count_up_from(mode_degrees(3), 0, 1));
        } else if k == 4 {
            assert(count_up_from(mode_degrees(4), 0, 1));
        } else if k == 5 {
            assert(count_up_from(mode_degrees(5), 0, 1));
        } else if k == 6 {
            assert(count_up_from(mode_degrees(6), 0, 1));
        } else if k == 7 {
            assert(count_up_from(mode_degrees(7), 0, 1));
        } else if k == 8 {
            assert(count_up_from(mode_degrees(8), 0, 1));
        } else if k == 9 {
            assert(count_up_from(mode_degrees(9), 0, 1));
        } else if k == 10 {
            assert(count_up_from(mode_degrees(10), 0, 1));
        } else if k == 11 {
            assert(count_up_from(mode_degrees(11), 0, 1));
        } else if k == 12 {
            assert(count_up_from(mode_degrees(12), 0, 1));
        } else if k == 13 {
            assert(count_up_from(mode_degrees(13), 0, 1));
        } else if k == 14 {
            assert(count_up_from(mode_degrees(14), 0, 1));
        } else if k == 16 {
            assert(count_up_from(mode_degrees(16), 0, 1));
        } else if k == 17 {
            assert(count_up_from(mode_degrees(17), 0, 1));
        } else if k == 18 {
            assert(count_up_from(mode_degrees(18), 0, 1));
        } else if k == 19 {
            assert(count_up_from(mode_degrees(19), 0, 1));
        } else if k == 20 {
            assert(count_up_from(mode_degrees(20), 0, 1));
        } else if k == 21 {
            assert(count_up_from(mode_degrees(21), 0, 1));
        } else if k == 22 {
            assert(count_up_from(mode_degrees(22), 0, 1));
        } else if k == 23 {
            assert(count_up_from(mode_degrees(23), 0, 1));
        } else if k == 24 {
            assert(count_up_from(mode_degrees(24), 0, 1));
        } else if k == 25 {
            assert(count_up_from(mode_degrees(25), 0, 1));
        } else if k == 26 {
            assert(count_up_from(mode_degrees(26), 0, 1));
        } else if k == 27 {
            assert(count_up_from(mode_degrees(27), 0, 1));
        } else if k == 28 {
            assert(count_up_from(mode_degrees(28), 0, 1));
        } else if k == 29 {
            assert(count_up_from(mode_degrees(29), 0, 1));
        } else if k == 30 {
            assert(count_up_from(mode_degrees(30), 0, 1));
        } else if k == 31 {
            assert(count_up_from(mode_degrees(31), 0, 1));
        } else if k == 32 {
            assert(count_up_from(mode_degrees(32), 0, 1));
        } else if k == 33 {
            assert(count_up_from(mode_degrees(33), 0, 1));
        } else if k == 34 {
            assert(count_up_from(mode_degrees(34), 0, 1));
        } else if k == 35 {
            assert(count_up_from(mode_degrees(35), 0, 1));
        }
}

/// Transposing never fails in a scale of a known mode other than "all minor" (the 16th
/// mode, whose steps have no degree 8 and 9): each degree of such a mode has a step.
pub proof fn lemma_known_mode_transpose_never_fails(
    s: Scale,
    k: int,
    n: int,
    offset: int,
    strictness: TransposeStrictness,
)
    requires
        0 <= k < 36,
        k != 15,
        is_known_mode(s.mode_view(), k),
    ensures
        !s.transpose_fails(n, offset, strictness),
{
    let d = s.degrees_view();
    lemma_known_modes_count_up(k);
    lemma_steps_upto(d, 12);
    assert(exists|i: int| 0 <= i < 12 && #[trigger] d[i] != 0);
    let num = steps_of(d).len() as int;
    let key = s.key_view();
    let t = d[step_of(key, n)] as int + degree_shift(key, d, offset);
    lemma_mod_bound(t - 1, num);
    lemma_counting_mode_has_each_degree(d, wrapped_degree(t, num));
}

proof fn lemma_single_word(w: Seq<char>)
    requires
        w.len() > 0,
        forall|i: int| 0 <= i < w.len() ==> w[i] != ' ',
    ensures
        words(w) == seq![w],
    decreases w.len(),
{
    if w.len() == 1 {
        assert(w.drop_last() =~= Seq::<char>::empty());
        assert(words(w.drop_last()) == Seq::<Seq<char>>::empty());
        assert(w =~= seq![w.last()]);
        assert(words(w) =~= seq![w]);
    } else {
        let v = w.drop_last();
        lemma_single_word(v);
        assert(w[w.len() - 2] == v.last());
        assert(v.push(w.last()) =~= w);
        assert(words(w) =~= seq![w]);
    }
}

proof fn lemma_major_index()
    ensures
        mode_index("major"@) == 1,
{
    reveal_strlit("major");
    reveal_strlit("chromatic");
    reveal_strlit("natural major");
    reveal_strlit("all");
    let m = "major"@;
    lemma_short_form_expands("maj"@, "maj"@, m);
    lemma_single_word(m);
    let ws = words(m).map_values(|w: Seq<char>| synonym(w));
    assert(ws =~= seq![m]);
    assert(join_words(ws) == m);
    assert(!is_white_space(m[0]) && !is_white_space(m.last()));
    assert(trim(m) == m);
    assert(normalized_mode_name(m) == m);
    assert(!mode_is_called(0, m)) by {
        assert(mode_alt_names(0) == seq!["all"@]);
    }
    assert(eq_ignore_case(mode_alt_names(1)[0], m));
    assert(mode_is_called(1, m));
    assert(first_mode_called(m, 1) == 1);
    assert(first_mode_called(m, 0) == 1);
}

/// Whether `short` is a short form of the mode name word `long`.
pub open spec fn is_short_form(short: Seq<char>, long: Seq<char>) -> bool {
    (short == "8-tone"@ && long == "eight-tone"@) ||
        (short == "9-tone"@ && long == "nine-tone"@) ||
        (short == "aug"@ && long == "augmented"@) ||
        (short == "dim"@ && long == "diminished"@) ||
        (short == "egypt"@ && long == "egyptian"@) ||
        (short == "harm"@ && long == "harmonic"@) ||
        (short == "hungary"@ && long == "hungarian"@) ||
        (short == "roman"@ && long == "romanian"@) ||
        (short == "min"@ && long == "minor"@) ||
        (short == "maj"@ && long == "major"@) ||
        (short == "nat"@ && long == "natural"@) ||
        (short == "penta"@ && long == "pentatonic"@) ||
        (short == "span"@ && long == "spanish"@)
}

/// Two words that differ at `i` when ASCII case is ignored are not equal ignoring case.
proof fn lemma_differs_at(a: Seq<char>, b: Seq<char>, i: int)
    requires
        0 <= i < a.len(),
        lower_code(a[i]) != lower_code(b[i]),
    ensures
        !eq_ignore_case(a, b),
{
}

/// A word equal to `short` ignoring case is not equal to a word that `short` differs from.
proof fn lemma_not_eq_ignore_case_through(w: Seq<char>, short: Seq<char>, other: Seq<char>)
    requires
        eq_ignore_case(w, short),
        !eq_ignore_case(short, other),
    ensures
        !eq_ignore_case(w, other),
{
    if eq_ignore_case(w, other) {
        lemma_eq_ignore_case_transitive(w, short, short);
        lemma_eq_ignore_case_transitive(short, w, other);
    }
}

proof fn lemma_short_form_expands(w: Seq<char>, short: Seq<char>, long: Seq<char>)
    requires
        is_short_form(short, long),
        eq_ignore_case(w, short),
    ensures
        synonym(w) == long,
        synonym(long) == long,
{
    reveal_strlit("8-tone");
    reveal_strlit("9-tone");
    reveal_strlit("Dominant");
    reveal_strlit("aug");
    reveal_strlit("augmented");
    reveal_strlit("dim");
    reveal_strlit("diminished");
    reveal_strlit("dom");
    reveal_strlit("egypt");
    reveal_strlit("egyptian");
    reveal_strlit("eight-tone");
    reveal_strlit("harm");
    reveal_strlit("harmonic");
    reveal_strlit("hungarian");
    reveal_strlit("hungary");
    reveal_strlit("maj");
    reveal_strlit("major");
    reveal_strlit("min");
    reveal_strlit("minor");
    reveal_strlit("nat");
    reveal_strlit("natural");
    reveal_strlit("nine-tone");
    reveal_strlit("penta");
    reveal_strlit("pentatonic");
    reveal_strlit("roman");
    reveal_strlit("romanian");
    reveal_strlit("span");
    reveal_strlit("spanish");
    if short == "8-tone"@ && long == "eight-tone"@ {
        assert(eq_ignore_case(w, "8-tone"@));
    } else if short == "9-tone"@ && long == "nine-tone"@ {
        lemma_differs_at("9-tone"@, "8-tone"@, 0);
        lemma_not_eq_ignore_case_through(w, "9-tone"@, "8-tone"@);
        assert(eq_ignore_case(w, "9-tone"@));
    } else if short == "aug"@ && long == "augmented"@ {
        lemma_not_eq_ignore_case_through(w, "aug"@, "8-tone"@);
        lemma_not_eq_ignore_case_through(w, "aug"@, "9-tone"@);
        assert(eq_ignore_case(w, "aug"@));
    } else if short == "dim"@ && long == "diminished"@ {
        lemma_not_eq_ignore_case_through(w, "dim"@, "8-tone"@);
        lemma_not_eq_ignore_case_through(w, "dim"@, "9-tone"@);
        lemma_differs_at("dim"@, "aug"@, 0);
        lemma_not_eq_ignore_case_through(w, "dim"@, "aug"@);
        assert(eq_ignore_case(w, "dim"@));
    } else if short == "egypt"@ && long == "egyptian"@ {
        lemma_not_eq_ignore_case_through(w, "egypt"@, "8-tone"@);
        lemma_not_eq_ignore_case_through(w, "egypt"@, "9-tone"@);
        lemma_not_eq_ignore_case_through(w, "egypt"@, "aug"@);
        lemma_not_eq_ignore_case_through(w, "egypt"@, "dim"@);
        lemma_not_eq_ignore_case_through(w, "egypt"@, "dom"@);
        assert(eq_ignore_case(w, "egypt"@));
    } else if short == "harm"@ && long == "harmonic"@ {
        lemma_not_eq_ignore_case_through(w, "harm"@, "8-tone"@);
        lemma_not_eq_ignore_case_through(w, "harm"@, "9-tone"@);
        lemma_not_eq_ignore_case_through(w, "harm"@, "aug"@);
        lemma_not_eq_ignore_case_through(w, "harm"@, "dim"@);
        lemma_not_eq_ignore_case_through(w, "harm"@, "dom"@);
        lemma_not_eq_ignore_case_through(w, "harm"@, "egypt"@);
        assert(eq_ignore_case(w, "harm"@));
    } else if short == "hungary"@ && long == "hungarian"@ {
        lemma_not_eq_ignore_case_through(w, "hungary"@, "8-tone"@);
        lemma_not_eq_ignore_case_through(w, "hungary"@, "9-tone"@);
        lemma_not_eq_ignore_case_through(w, "hungary"@, "aug"@);
        lemma_not_eq_ignore_case_through(w, "hungary"@, "dim"@);
        lemma_not_eq_ignore_case_through(w, "hungary"@, "dom"@);
        lemma_not_eq_ignore_case_through(w, "hungary"@, "egypt"@);
        lemma_not_eq_ignore_case_through(w, "hungary"@, "harm"@);
        assert(eq_ignore_case(w, "hungary"@));
    } else if short == "roman"@ && long == "romanian"@ {
        lemma_not_eq_ignore_case_through(w, "roman"@, "8-tone"@);
        lemma_not_eq_ignore_case_through(w, "roman"@, "9-tone"@);
        lemma_not_eq_ignore_case_through(w, "roman"@, "aug"@);
        lemma_not_eq_ignore_case_through(w, "roman"@, "dim"@);
        lemma_not_eq_ignore_case_through(w, "roman"@, "dom"@);
        lemma_differs_at("roman"@, "egypt"@, 0);
        lemma_not_eq_ignore_case_through(w, "roman"@, "egypt"@);
        lemma_not_eq_ignore_case_through(w, "roman"@, "harm"@);
        lemma_not_eq_ignore_case_through(w, "roman"@, "hungary"@);
        assert(eq_ignore_case(w, "roman"@));
    } else if short == "min"@ && long == "minor"@ {
        lemma_not_eq_ignore_case_through(w, "min"@, "8-tone"@);
        lemma_not_eq_ignore_case_through(w, "min"@, "9-tone"@);
        lemma_differs_at("min"@, "aug"@, 0);
        lemma_not_eq_ignore_case_through(w, "min"@, "aug"@);
        lemma_differs_at("min"@, "dim"@, 0);
        lemma_not_eq_ignore_case_through(w, "min"@, "dim"@);
        lemma_differs_at("min"@, "dom"@, 0);
        lemma_not_eq_ignore_case_through(w, "min"@, "dom"@);
        lemma_not_eq_ignore_case_through(w, "min"@, "egypt"@);
        lemma_not_eq_ignore_case_through(w, "min"@, "harm"@);
        lemma_not_eq_ignore_case_through(w, "min"@, "hungary"@);
        lemma_not_eq_ignore_case_through(w, "min"@, "roman"@);
        lemma_differs_at("minor"@, "egypt"@, 0);
        lemma_differs_at("minor"@, "roman"@, 0);
        lemma_differs_at("minor"@, "penta"@, 0);
        assert(eq_ignore_case(w, "min"@));
    } else if short == "maj"@ && long == "major"@ {
        lemma_not_eq_ignore_case_through(w, "maj"@, "8-tone"@);
        lemma_not_eq_ignore_case_through(w, "maj"@, "9-tone"@);
        lemma_differs_at("maj"@, "aug"@, 0);
        lemma_not_eq_ignore_case_through(w, "maj"@, "aug"@);
        lemma_differs_at("maj"@, "dim"@, 0);
        lemma_not_eq_ignore_case_through(w, "maj"@, "dim"@);
        lemma_differs_at("maj"@, "dom"@, 0);
        lemma_not_eq_ignore_case_through(w, "maj"@, "dom"@);
        lemma_not_eq_ignore_case_through(w, "maj"@, "egypt"@);
        lemma_not_eq_ignore_case_through(w, "maj"@, "harm"@);
        lemma_not_eq_ignore_case_through(w, "maj"@, "hungary"@);
        lemma_not_eq_ignore_case_through(w, "maj"@, "roman"@);
        lemma_differs_at("maj"@, "min"@, 1);
        lemma_not_eq_ignore_case_through(w, "maj"@, "min"@);
        lemma_differs_at("major"@, "egypt"@, 0);
        lemma_differs_at("major"@, "roman"@, 0);
        lemma_differs_at("major"@, "penta"@, 0);
        assert(eq_ignore_case(w, "maj"@));
    } else if short == "nat"@ && long == "natural"@ {
        lemma_not_eq_ignore_case_through(w, "nat"@, "8-tone"@);
        lemma_not_eq_ignore_case_through(w, "nat"@, "9-tone"@);
        lemma_differs_at("nat"@, "aug"@, 0);
        lemma_not_eq_ignore_case_through(w, "nat"@, "aug"@);
        lemma_differs_at("nat"@, "dim"@, 0);
        lemma_not_eq_ignore_case_through(w, "nat"@, "dim"@);
        lemma_differs_at("nat"@, "dom"@, 0);
        lemma_not_eq_ignore_case_through(w, "nat"@, "dom"@);
        lemma_not_eq_ignore_case_through(w, "nat"@, "egypt"@);
        lemma_not_eq_ignore_case_through(w, "nat"@, "harm"@);
        lemma_not_eq_ignore_case_through(w, "nat"@, "hungary"@);
        lemma_not_eq_ignore_case_through(w, "nat"@, "roman"@);
        lemma_differs_at("nat"@, "min"@, 0);
        lemma_not_eq_ignore_case_through(w, "nat"@, "min"@);
        lemma_differs_at("nat"@, "maj"@, 0);
        lemma_not_eq_ignore_case_through(w, "nat"@, "maj"@);
        lemma_differs_at("natural"@, "hungary"@, 0);
        assert(eq_ignore_case(w, "nat"@));
    } else if short == "penta"@ && long == "pentatonic"@ {
        lemma_not_eq_ignore_case_through(w, "penta"@, "8-tone"@);
        lemma_not_eq_ignore_case_through(w, "penta"@, "9-tone"@);
        lemma_not_eq_ignore_case_through(w, "penta"@, "aug"@);
        lemma_not_eq_ignore_case_through(w, "penta"@, "dim"@);
        lemma_not_eq_ignore_case_through(w, "penta"@, "dom"@);
        lemma_differs_at("penta"@, "egypt"@, 0);
        lemma_not_eq_ignore_case_through(w, "penta"@, "egypt"@);
        lemma_not_eq_ignore_case_through(w, "penta"@, "harm"@);
        lemma_not_eq_ignore_case_through(w, "penta"@, "hungary"@);
        lemma_differs_at("penta"@, "roman"@, 0);
        lemma_not_eq_ignore_case_through(w, "penta"@, "roman"@);
        lemma_not_eq_ignore_case_through(w, "penta"@, "min"@);
        lemma_not_eq_ignore_case_through(w, "penta"@, "maj"@);
        lemma_not_eq_ignore_case_through(w, "penta"@, "nat"@);
        assert(eq_ignore_case(w, "penta"@));
    } else if short == "span"@ && long == "spanish"@ {
        lemma_not_eq_ignore_case_through(w, "span"@, "8-tone"@);
        lemma_not_eq_ignore_case_through(w, "span"@, "9-tone"@);
        lemma_not_eq_ignore_case_through(w, "span"@, "aug"@);
        lemma_not_eq_ignore_case_through(w, "span"@, "dim"@);
        lemma_not_eq_ignore_case_through(w, "span"@, "dom"@);
        lemma_not_eq_ignore_case_through(w, "span"@, "egypt"@);
        lemma_differs_at("span"@, "harm"@, 0);
        lemma_not_eq_ignore_case_through(w, "span"@, "harm"@);
        lemma_not_eq_ignore_case_through(w, "span"@, "hungary"@);
        lemma_not_eq_ignore_case_through(w, "span"@, "roman"@);
        lemma_not_eq_ignore_case_through(w, "span"@, "min"@);
        lemma_not_eq_ignore_case_through(w, "span"@, "maj"@);
        lemma_not_eq_ignore_case_through(w, "span"@, "nat"@);
        lemma_not_eq_ignore_case_through(w, "span"@, "penta"@);
        lemma_differs_at("spanish"@, "hungary"@, 0);
        assert(eq_ignore_case(w, "span"@));
    }

}

/// A short form of a word of a mode name selects what its long form selects: in any mode
/// name, a word that is a short form ("maj", "min", "harm", "penta", ... in any ASCII case)
/// can be replaced by its long form ("major", "minor", "harmonic", "pentatonic", ...)
/// without changing the mode that the name selects.
pub proof fn lemma_short_forms_select_long_forms(
    s: Seq<char>,
    t: Seq<char>,
    k: int,
    short: Seq<char>,
    long: Seq<char>,
)
    requires
        is_short_form(short, long),
        words(s).len() == words(t).len(),
        0 <= k < words(s).len(),
        eq_ignore_case(words(s)[k], short),
        words(t)[k] == long,
        forall|i: int| 0 <= i < words(s).len() && i != k ==> words(s)[i] == words(t)[i],
    ensures
        mode_index(s) == mode_index(t),
{
    lemma_short_form_expands(words(s)[k], short, long);
    let ws = words(s).map_values(|w: Seq<char>| synonym(w));
    let wt = words(t).map_values(|w: Seq<char>| synonym(w));
    assert(ws =~= wt);
}

/// The major mode: any spelling of "major" in any ASCII case, and so also "maj", selects the
/// natural major mode, whose steps are those of the major scale (0, 2, 4, 5, 7, 9 and 11
/// semitones above the root).
pub proof fn lemma_major_is_natural_major(w: Seq<char>)
    requires
        eq_ignore_case(w, "major"@) || eq_ignore_case(w, "maj"@),
    ensures
        mode_index(w) < 36,
        mode_degrees(mode_index(w)) == seq![1usize, 0, 2, 0, 3, 4, 0, 5, 0, 6, 0, 7],
{
    reveal_strlit("major");
    reveal_strlit("maj");
    let m = "major"@;
    lemma_major_index();
    if eq_ignore_case(w, "major"@) {
        lemma_mode_lookup_ignores_case(w, m);
    } else {
        assert forall|i: int| 0 <= i < w.len() implies w[i] != ' ' by {
            assert(lower_code(w[i]) == lower_code("maj"@[i]));
            lemma_lower_code_kind(w[i], "maj"@[i]);
        }
        lemma_single_word(w);
        lemma_single_word(m);
        lemma_short_forms_select_long_forms(w, m, 0, "maj"@, m);
    }
}

} // verus!
