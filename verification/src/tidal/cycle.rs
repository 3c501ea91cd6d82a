//! The mini-notation of tidal cycles: a parser from text to a tree of steps.
//!
//! The grammar that `parse_cycle` reads:
//!
//! ```text
//! mini     := body(end of text)
//! body(c)  := space* (element space*)* c          -- c: the closing bracket, or the end
//! element  := ',' | '|' | '!' | '.' | step        -- stack, choice, repeat, split
//! step     := atom op*
//! atom     := '[' body(']') | '<' body('>') | '{' body('}') ('%' atom)? | '~' | '_' | word
//! op       := ('*' | '/' | ':') atom
//!           | ':' key '=' atom                        -- target assignment
//!           | ('!' | '@') integer? | '?' number?      -- no space before an operator
//!           | '(' space* step space* ',' space* step space* (',' space* step space*)? ')'
//! key      := '#' | name
//! word     := a maximal run of letters, digits and the characters # ' ^ - . _
//! ```
//!
//! A lone `.` splits a section into parts, each a subdivision of its own. A word of two
//! integers joined by `..` is a range of integers. `~` and a lone `-` are rests; `_` is a
//! hold, and may be followed by no word character but another `_`. A word is an integer
//! (decimal, or hexadecimal after `0x`), a number with a decimal point, a pitch
//! (a note letter, an optional `#` or `b`, an optional octave digit), a chord (a pitch, `'`
//! and a mode of letters, digits, `#`, `^` and `-`), a target (`#` and an integer, an index;
//! a letter and a number with a decimal point, that letter as a name with the number) or a
//! name (a letter followed by letters, digits and `_`); any other word is refused. In a
//! target assignment `key=atom` each single step of the atom that has a number becomes a
//! target of the key with that number.

use vstd::prelude::*;
use vstd::string::StrSliceExecFns;

use crate::text::{chars_of, digit_value, is_digit, parse_i32, spec_parse_i32, append_int, int_text};
use crate::tidal::pitch::{Pitch, pitch_of_parts};
use crate::tidal::output::{
    channel_models, digits_value, seeded_output, spec_seeded_output, Event, EventModel,
    OutputError,
};

verus! {

// ---------------------------------------------------------------------------------------------
// Values and steps

/// A target that an event carries: an index, or a name with an optional number, the
/// number kept as its text.
pub enum Target {
    Index(i32),
    Named(String, Option<String>),
}

/// What a `Target` holds.
pub enum TargetModel {
    Index(i32),
    Named(Seq<char>, Option<Seq<char>>),
}

impl Target {
    pub open spec fn model(&self) -> TargetModel {
        match self {
            Target::Index(i) => TargetModel::Index(*i),
            Target::Named(n, v) => TargetModel::Named(
                n@,
                match v {
                    Some(t) => Some(t@),
                    None => None,
                },
            ),
        }
    }

    /// Whether two targets have the same key: the same index, or the same name.
    pub fn equal_key(&self, other: &Target) -> (r: bool)
        ensures
            r == same_key(self.model(), other.model()),
    {
        match (self, other) {
            (Target::Index(x), Target::Index(y)) => *x == *y,
            (Target::Named(x, _), Target::Named(y, _)) => crate::text::str_eq(x.as_str(), y.as_str()),
            _ => false,
        }
    }

    /// A copy of the target.
    pub fn copy(&self) -> (r: Target)
        ensures
            r.model() == self.model(),
    {
        match self {
            Target::Index(i) => Target::Index(*i),
            Target::Named(n, v) => Target::Named(
                n.clone(),
                match v {
                    Some(t) => Some(t.clone()),
                    None => None,
                },
            ),
        }
    }
}

/// Whether two targets have the same key: the same index, or the same name.
pub open spec fn same_key(a: TargetModel, b: TargetModel) -> bool {
    match (a, b) {
        (TargetModel::Index(x), TargetModel::Index(y)) => x == y,
        (TargetModel::Named(x, _), TargetModel::Named(y, _)) => x == y,
        _ => false,
    }
}

/// The value of a single step. A number with a decimal point is kept as its text.
pub enum Value {
    Rest,
    Hold,
    Integer(i32),
    Float(String),
    Pitch(Pitch),
    Chord(Pitch, String),
    Target(Target),
    Name(String),
}

/// What a `Value` holds, with texts as character sequences and a pitch as its key within
/// the octave and its octave.
pub enum ValueModel {
    Rest,
    Hold,
    Integer(i32),
    Float(Seq<char>),
    Pitch(int, int),
    Chord(int, int, Seq<char>),
    Target(TargetModel),
    Name(Seq<char>),
}

impl Value {
    pub open spec fn model(&self) -> ValueModel {
        match self {
            Value::Rest => ValueModel::Rest,
            Value::Hold => ValueModel::Hold,
            Value::Integer(i) => ValueModel::Integer(*i),
            Value::Float(t) => ValueModel::Float(t@),
            Value::Pitch(p) => ValueModel::Pitch(p.note_view(), p.octave_view()),
            Value::Chord(p, m) => ValueModel::Chord(p.note_view(), p.octave_view(), m@),
            Value::Target(t) => ValueModel::Target(t.model()),
            Value::Name(n) => ValueModel::Name(n@),
        }
    }

    /// A copy of the value.
    pub fn copy(&self) -> (r: Value)
        ensures
            r.model() == self.model(),
    {
        match self {
            Value::Rest => Value::Rest,
            Value::Hold => Value::Hold,
            Value::Integer(i) => Value::Integer(*i),
            Value::Float(t) => Value::Float(t.clone()),
            Value::Pitch(p) => Value::Pitch(*p),
            Value::Chord(p, m) => Value::Chord(*p, m.clone()),
            Value::Target(t) => Value::Target(t.copy()),
            Value::Name(n) => Value::Name(n.clone()),
        }
    }
}

/// A step of a cycle, as the parser builds it.
pub enum Step {
    /// A value with the text it was read from.
    Single(Value, String),
    /// Steps that share the step's time evenly: `[a b c]`.
    Subdivision(Vec<Step>),
    /// Steps of which one plays per cycle, in turn: `<a b c>`.
    Alternating(Vec<Step>),
    /// Steps played at the pace of the count step, a step per count: `{a b c}%4`.
    Polymeter(Vec<Step>, Box<Step>),
    /// Steps that play at the same time: `[a b, c d]`.
    Stack(Vec<Step>),
    /// Steps of which one is picked at random: `a | b | c`.
    Choices(Vec<Step>),
    /// A step sped up by a factor: `a*2`.
    Fast(Box<Step>, Box<Step>),
    /// A step slowed down by a factor: `a/2`.
    Slow(Box<Step>, Box<Step>),
    /// A step whose events get the right step's values as targets: `a:1`.
    Target(Box<Step>, Box<Step>),
    /// A step that is dropped at random with a chance: `a?0.3`.
    Degrade(Box<Step>, Value),
    /// A step played along a euclidean rhythm: `a(3,8,1)`, the first, second and third
    /// step of the parentheses in that order.
    Bjorklund(Box<Step>, Box<Step>, Box<Step>, Option<Box<Step>>),
    /// A repeat of the step before: `a !`.
    Repeat,
    /// A step repeated a number of times: `a!3`.
    Replicate(Box<Step>, Value),
    /// A step held for a number of steps: `a@3`.
    Weight(Box<Step>, Value),
    /// The integers from the first bound to the second, counting up or down: `1..4`.
    Range(i32, i32),
}

/// What a `Step` holds, with sequences in place of vectors.
pub enum StepModel {
    Single(ValueModel, Seq<char>),
    Subdivision(Seq<StepModel>),
    Alternating(Seq<StepModel>),
    Polymeter(Seq<StepModel>, Box<StepModel>),
    Stack(Seq<StepModel>),
    Choices(Seq<StepModel>),
    Fast(Box<StepModel>, Box<StepModel>),
    Slow(Box<StepModel>, Box<StepModel>),
    Target(Box<StepModel>, Box<StepModel>),
    Degrade(Box<StepModel>, ValueModel),
    Bjorklund(Box<StepModel>, Box<StepModel>, Box<StepModel>, Option<Box<StepModel>>),
    Repeat,
    Replicate(Box<StepModel>, ValueModel),
    Weight(Box<StepModel>, ValueModel),
    Range(i32, i32),
}

impl Step {
    pub open spec fn model(&self) -> StepModel
        decreases self, 0int,
    {
        match self {
            Step::Single(v, t) => StepModel::Single(v.model(), t@),
            Step::Subdivision(v) => StepModel::Subdivision(child_models(v)),
            Step::Alternating(v) => StepModel::Alternating(child_models(v)),
            Step::Polymeter(v, c) => StepModel::Polymeter(child_models(v), Box::new(c.model())),
            Step::Stack(v) => StepModel::Stack(child_models(v)),
            Step::Choices(v) => StepModel::Choices(child_models(v)),
            Step::Fast(l, r) => StepModel::Fast(Box::new(l.model()), Box::new(r.model())),
            Step::Slow(l, r) => StepModel::Slow(Box::new(l.model()), Box::new(r.model())),
            Step::Target(l, r) => StepModel::Target(Box::new(l.model()), Box::new(r.model())),
            Step::Degrade(l, v) => StepModel::Degrade(Box::new(l.model()), v.model()),
            Step::Bjorklund(l, a, b, c) => StepModel::Bjorklund(
                Box::new(l.model()),
                Box::new(a.model()),
                Box::new(b.model()),
                match c {
                    Some(c) => Some(Box::new(c.model())),
                    None => None,
                },
            ),
            Step::Repeat => StepModel::Repeat,
            Step::Replicate(l, v) => StepModel::Replicate(Box::new(l.model()), v.model()),
            Step::Weight(l, v) => StepModel::Weight(Box::new(l.model()), v.model()),
            Step::Range(x, y) => StepModel::Range(*x, *y),
        }
    }

    /// A copy of the step.
    pub fn copy(&self) -> (r: Step)
        ensures
            r.model() == self.model(),
        decreases self,
    {
        match self {
            Step::Single(v, t) => Step::Single(v.copy(), t.clone()),
            Step::Subdivision(v) => Step::Subdivision(copy_steps(v)),
            Step::Alternating(v) => Step::Alternating(copy_steps(v)),
            Step::Polymeter(v, c) => Step::Polymeter(copy_steps(v), Box::new(c.copy())),
            Step::Stack(v) => Step::Stack(copy_steps(v)),
            Step::Choices(v) => Step::Choices(copy_steps(v)),
            Step::Fast(l, r) => Step::Fast(Box::new(l.copy()), Box::new(r.copy())),
            Step::Slow(l, r) => Step::Slow(Box::new(l.copy()), Box::new(r.copy())),
            Step::Target(l, r) => Step::Target(Box::new(l.copy()), Box::new(r.copy())),
            Step::Degrade(l, v) => Step::Degrade(Box::new(l.copy()), v.copy()),
            Step::Bjorklund(l, a, b, c) => {
                let c2 = match c {
                    Some(c) => Some(Box::new(c.copy())),
                    None => None,
                };
                Step::Bjorklund(Box::new(l.copy()), Box::new(a.copy()), Box::new(b.copy()), c2)
            },
            Step::Repeat => Step::Repeat,
            Step::Replicate(l, v) => Step::Replicate(Box::new(l.copy()), v.copy()),
            Step::Weight(l, v) => Step::Weight(Box::new(l.copy()), v.copy()),
            Step::Range(x, y) => Step::Range(*x, *y),
        }
    }
}

/// What the steps of a vector hold, in order.
pub open spec fn child_models(v: &Vec<Step>) -> Seq<StepModel>
    decreases v, 1int,
{
    Seq::new(
        v.len() as nat,
        |i: int|
            if 0 <= i < v.len() {
                v@[i].model()
            } else {
                StepModel::Repeat
            },
    )
}

/// What the step vectors of a vector hold, in order.
pub open spec fn nested_models(v: Seq<Vec<Step>>) -> Seq<Seq<StepModel>> {
    Seq::new(v.len(), |i: int| child_models(&v[i]))
}

fn copy_steps(v: &Vec<Step>) -> (r: Vec<Step>)
    ensures
        child_models(&r) == child_models(v),
    decreases v,
{
    let mut r: Vec<Step> = Vec::new();
    let mut i: usize = 0;
    while i < v.len()
        invariant
            i <= v.len(),
            r.len() == i,
            forall|j: int| 0 <= j < i ==> (#[trigger] r@[j]).model() == v@[j].model(),
        decreases v.len() - i,
    {
        let c = v[i].copy();
        r.push(c);
        i = i + 1;
    }
    assert(child_models(&r) =~= child_models(v));
    r
}

/// The rest step that empty groups become.
pub open spec fn rest_model() -> StepModel {
    StepModel::Single(ValueModel::Rest, seq!['~'])
}

/// The hold step that a weight adds.
pub open spec fn hold_model() -> StepModel {
    StepModel::Single(ValueModel::Hold, seq!['_'])
}

fn rest_step() -> (r: Step)
    ensures
        r.model() == rest_model(),
{
    let mut t = String::new();
    proof {
        reveal_strlit("~");
    }
    t.append("~");
    assert(t@ =~= seq!['~']);
    Step::Single(Value::Rest, t)
}

fn hold_step() -> (r: Step)
    ensures
        r.model() == hold_model(),
{
    let mut t = String::new();
    proof {
        reveal_strlit("_");
    }
    t.append("_");
    assert(t@ =~= seq!['_']);
    Step::Single(Value::Hold, t)
}

// ---------------------------------------------------------------------------------------------
// Target assignments

/// The MIDI note of a pitch, at most 127.
pub open spec fn midi_of(n: int, o: int) -> int {
    if o * 12 + n < 127 {
        o * 12 + n
    } else {
        127
    }
}

/// The number, as text, that a value gives a named target in an assignment `name=[..]`:
/// a number's own text, the decimal text of an integer, of a pitch's MIDI note or of an
/// index, a named target's number; `None` for a value without a number.
pub open spec fn float_text(v: ValueModel) -> Option<Seq<char>> {
    match v {
        ValueModel::Integer(i) => Some(int_text(i as int)),
        ValueModel::Float(w) => Some(w),
        ValueModel::Pitch(n, o) => Some(int_text(midi_of(n, o))),
        ValueModel::Chord(n, o, _) => Some(int_text(midi_of(n, o))),
        ValueModel::Target(TargetModel::Index(i)) => Some(int_text(i as int)),
        ValueModel::Target(TargetModel::Named(_, t)) => t,
        _ => None,
    }
}

/// The integer that a number's text truncates to, toward zero, limited to the `i32` range;
/// 0 for a text whose part before the `.` (after an optional `-`) is not all digits.
pub open spec fn truncated(w: Seq<char>) -> i32 {
    let ds = w.subrange(sign_len(w), first_dot(w, 0));
    let v = digits_value(ds);
    if sign_len(w) > first_dot(w, 0) || !(forall|i: int| 0 <= i < ds.len() ==> is_digit(ds[i])) {
        0
    } else if sign_len(w) == 1 {
        if v > 0x8000_0000 {
            i32::MIN
        } else {
            (-v) as i32
        }
    } else {
        if v > 0x7FFF_FFFF {
            i32::MAX
        } else {
            v as i32
        }
    }
}

proof fn lemma_first_dot_at(w: Seq<char>, i: int, k: int)
    requires
        0 <= i <= k <= w.len(),
        forall|j: int| i <= j < k ==> w[j] != '.',
        k == w.len() || w[k] == '.',
    ensures
        first_dot(w, i) == k,
    decreases k - i,
{
    if i < k {
        lemma_first_dot_at(w, i + 1, k);
    }
}

/// The index that a value gives in an assignment `#=[..]`: an integer, a number truncated,
/// a pitch's MIDI note, an index, a named target's number truncated; `None` for a value
/// without a number.
pub open spec fn int_of(v: ValueModel) -> Option<i32> {
    match v {
        ValueModel::Integer(i) => Some(i),
        ValueModel::Float(w) => Some(truncated(w)),
        ValueModel::Pitch(n, o) => Some(midi_of(n, o) as i32),
        ValueModel::Chord(n, o, _) => Some(midi_of(n, o) as i32),
        ValueModel::Target(TargetModel::Index(i)) => Some(i),
        ValueModel::Target(TargetModel::Named(_, Some(t))) => Some(truncated(t)),
        _ => None,
    }
}

/// The value of a single step in the pattern of an assignment to the key `key` (a name, or
/// `None` for `#`): a target with the value's number; values without a number stay.
pub open spec fn assigned_value(v: ValueModel, key: Option<Seq<char>>) -> ValueModel {
    match key {
        Some(name) => match float_text(v) {
            Some(t) => ValueModel::Target(TargetModel::Named(name, Some(t))),
            None => v,
        },
        None => match int_of(v) {
            Some(i) => ValueModel::Target(TargetModel::Index(i)),
            None => v,
        },
    }
}

/// The steps `ch`, each the pattern of an assignment to the key `key`.
pub open spec fn assign_all(ch: Seq<StepModel>, key: Option<Seq<char>>) -> Seq<StepModel>
    decreases ch,
{
    Seq::new(
        ch.len(),
        |i: int|
            if 0 <= i < ch.len() {
                assign_targets(ch[i], key)
            } else {
                StepModel::Repeat
            },
    )
}

/// The pattern of an assignment to the key `key`: each single step that plays in it (not
/// the right sides of its expressions, nor its counts) with its value assigned.
pub open spec fn assign_targets(st: StepModel, key: Option<Seq<char>>) -> StepModel
    decreases st,
{
    match st {
        StepModel::Single(v, t) => StepModel::Single(assigned_value(v, key), t),
        StepModel::Subdivision(ch) => StepModel::Subdivision(
            assign_all(ch, key),
        ),
        StepModel::Alternating(ch) => StepModel::Alternating(
            assign_all(ch, key),
        ),
        StepModel::Polymeter(ch, c) => StepModel::Polymeter(
            assign_all(ch, key),
            c,
        ),
        StepModel::Stack(ch) => StepModel::Stack(
            assign_all(ch, key),
        ),
        StepModel::Choices(ch) => StepModel::Choices(
            assign_all(ch, key),
        ),
        StepModel::Fast(l, r) => StepModel::Fast(Box::new(assign_targets(*l, key)), r),
        StepModel::Slow(l, r) => StepModel::Slow(Box::new(assign_targets(*l, key)), r),
        StepModel::Target(l, r) => StepModel::Target(Box::new(assign_targets(*l, key)), r),
        StepModel::Degrade(l, v) => StepModel::Degrade(Box::new(assign_targets(*l, key)), v),
        StepModel::Bjorklund(l, a, b, c) => StepModel::Bjorklund(
            Box::new(assign_targets(*l, key)),
            a,
            b,
            c,
        ),
        _ => st,
    }
}

/// What an assignment's key holds.
pub open spec fn key_model(key: &Option<String>) -> Option<Seq<char>> {
    match key {
        Some(k) => Some(k@),
        None => None,
    }
}

fn float_text_exec(v: &Value) -> (r: Option<String>)
    ensures
        match r {
            Some(t) => float_text(v.model()) == Some(t@),
            None => float_text(v.model()) is None,
        },
{
    match v {
        Value::Integer(i) => Some(int_string(*i)),
        Value::Float(w) => Some(w.clone()),
        Value::Pitch(p) => Some(int_string(p.midi_note() as i32)),
        Value::Chord(p, _) => Some(int_string(p.midi_note() as i32)),
        Value::Target(Target::Index(i)) => Some(int_string(*i)),
        Value::Target(Target::Named(_, Some(t))) => Some(t.clone()),
        _ => None,
    }
}

fn int_string(v: i32) -> (r: String)
    ensures
        r@ == int_text(v as int),
{
    let mut s = String::new();
    assert(s@ =~= Seq::<char>::empty());
    append_int(&mut s, v);
    assert(s@ =~= int_text(v as int));
    s
}

fn truncated_exec(t: &String) -> (r: i32)
    ensures
        r == truncated(t@),
{
    let w = chars_of(t.as_str());
    let n = w.len();
    let s: usize = if n > 0 && w[0] == '-' {
        1
    } else {
        0
    };
    let mut k: usize = 0;
    while k < n && w[k] != '.'
        invariant
            k <= n,
            n == w@.len(),
            forall|j: int| 0 <= j < k ==> w@[j] != '.',
        decreases n - k,
    {
        k = k + 1;
    }
    proof {
        lemma_first_dot_at(w@, 0, k as int);
    }
    if s > k {
        return 0;
    }
    let ghost ds = w@.subrange(s as int, k as int);
    let mut i: usize = s;
    while i < k
        invariant
            s <= i <= k,
            k <= n,
            n == w@.len(),
            ds == w@.subrange(s as int, k as int),
            w@ == t@,
            first_dot(w@, 0) == k,
            sign_len(w@) == s,
            forall|j: int| 0 <= j < i - s ==> is_digit(ds[j]),
        decreases k - i,
    {
        if !('0' <= w[i] && w[i] <= '9') {
            assert(ds[i - s] == w@[i as int]);
            assert(!is_digit(ds[i - s]));
            assert(w@ == t@);
            return 0;
        }
        i = i + 1;
    }
    let mut v: u64 = 0;
    let mut i: usize = s;
    let ghost cap: int = 0x1_0000_0000;
    assert(ds.take(0) =~= Seq::<char>::empty());
    while i < k
        invariant
            s <= i <= k,
            k <= n,
            n == w@.len(),
            ds == w@.subrange(s as int, k as int),
            w@ == t@,
            cap == 0x1_0000_0000,
            forall|j: int| 0 <= j < ds.len() ==> is_digit(ds[j]),
            digits_value(ds.take(i - s)) >= 0,
            v == if digits_value(ds.take(i - s)) < cap {
                digits_value(ds.take(i - s))
            } else {
                cap
            },
        decreases k - i,
    {
        assert(ds.take(i - s + 1).drop_last() =~= ds.take(i - s));
        assert(ds.take(i - s + 1).last() == w@[i as int]);
        let c = w[i];
        assert(ds[i - s] == w@[i as int]);
        assert(is_digit(ds[i - s]));
        let dv = (c as u32 - '0' as u32) as u64;
        assert(dv == crate::text::digit_value(c));
        assert(ds.take(i - s + 1).last() != '.');
        let ghost old_dv = digits_value(ds.take(i - s));
        let ghost new_dv = digits_value(ds.take(i - s + 1));
        assert(new_dv == old_dv * 10 + dv);
        v = if v >= 0x1_0000_0000 {
            0x1_0000_0000
        } else {
            let x = v * 10 + dv;
            if x > 0x1_0000_0000 {
                0x1_0000_0000
            } else {
                x
            }
        };
        assert(new_dv >= 0);
        assert(v == if new_dv < cap {
            new_dv
        } else {
            cap
        });
        i = i + 1;
    }
    assert(ds.take(k - s) =~= ds);
    assert(w@ == t@);
    if s == 1 {
        if v > 0x8000_0000 {
            i32::MIN
        } else {
            (-(v as i64)) as i32
        }
    } else {
        if v > 0x7FFF_FFFF {
            i32::MAX
        } else {
            v as i32
        }
    }
}

fn int_of_exec(v: &Value) -> (r: Option<i32>)
    ensures
        r == int_of(v.model()),
{
    match v {
        Value::Integer(i) => Some(*i),
        Value::Float(w) => Some(truncated_exec(w)),
        Value::Pitch(p) => Some(p.midi_note() as i32),
        Value::Chord(p, _) => Some(p.midi_note() as i32),
        Value::Target(Target::Index(i)) => Some(*i),
        Value::Target(Target::Named(_, Some(t))) => Some(truncated_exec(t)),
        _ => None,
    }
}

fn assigned_value_exec(v: &Value, key: &Option<String>) -> (r: Value)
    ensures
        r.model() == assigned_value(v.model(), key_model(key)),
{
    match key {
        Some(name) => match float_text_exec(v) {
            Some(t) => Value::Target(Target::Named(name.clone(), Some(t))),
            None => v.copy(),
        },
        None => match int_of_exec(v) {
            Some(i) => Value::Target(Target::Index(i)),
            None => v.copy(),
        },
    }
}

fn assign_steps(v: &Vec<Step>, key: &Option<String>) -> (r: Vec<Step>)
    ensures
        child_models(&r) == assign_all(child_models(v), key_model(key)),
    decreases v,
{
    let mut r: Vec<Step> = Vec::new();
    let mut i: usize = 0;
    while i < v.len()
        invariant
            i <= v.len(),
            r.len() == i,
            forall|j: int|
                0 <= j < i ==> (#[trigger] r@[j]).model() == assign_targets(
                    v@[j].model(),
                    key_model(key),
                ),
        decreases v.len() - i,
    {
        let c = assign_exec(&v[i], key);
        r.push(c);
        i = i + 1;
    }
    assert(child_models(&r) =~= assign_all(child_models(v), key_model(key)));
    r
}

/// The pattern of an assignment with the key `key` (a name, or `None` for `#`), see
/// `assign_targets`.
fn assign_exec(st: &Step, key: &Option<String>) -> (r: Step)
    ensures
        r.model() == assign_targets(st.model(), key_model(key)),
    decreases st,
{
    match st {
        Step::Single(v, t) => {
            let nv = assigned_value_exec(v, key);
            let nt = t.clone();
            assert(nt@ == t@);
            let r = Step::Single(nv, nt);
            assert(st.model() == StepModel::Single(v.model(), t@));
            assert(r.model() == StepModel::Single(nv.model(), nt@));
            assert(assign_targets(StepModel::Single(v.model(), t@), key_model(key)) == StepModel::Single(assigned_value(v.model(), key_model(key)), t@));
            r
        },
        Step::Subdivision(v) => Step::Subdivision(assign_steps(v, key)),
        Step::Alternating(v) => Step::Alternating(assign_steps(v, key)),
        Step::Polymeter(v, c) => Step::Polymeter(assign_steps(v, key), Box::new(c.copy())),
        Step::Stack(v) => Step::Stack(assign_steps(v, key)),
        Step::Choices(v) => Step::Choices(assign_steps(v, key)),
        Step::Fast(l, r) => Step::Fast(Box::new(assign_exec(l, key)), Box::new(r.copy())),
        Step::Slow(l, r) => Step::Slow(Box::new(assign_exec(l, key)), Box::new(r.copy())),
        Step::Target(l, r) => Step::Target(Box::new(assign_exec(l, key)), Box::new(r.copy())),
        Step::Degrade(l, v) => Step::Degrade(Box::new(assign_exec(l, key)), v.copy()),
        Step::Bjorklund(l, a, b, c) => {
            let c2 = match c {
                Some(c) => Some(Box::new(c.copy())),
                None => None,
            };
            Step::Bjorklund(Box::new(assign_exec(l, key)), Box::new(a.copy()), Box::new(b.copy()), c2)
        },
        _ => st.copy(),
    }
}

// ---------------------------------------------------------------------------------------------
// Characters and words

/// White space between elements.
pub open spec fn is_space(c: char) -> bool {
    c == ' ' || c == '\t' || c == '\r' || c == '\n'
}

/// An ASCII letter.
pub open spec fn is_letter(c: char) -> bool {
    ('a' <= c && c <= 'z') || ('A' <= c && c <= 'Z')
}

/// A character of a word.
pub open spec fn is_word_char(c: char) -> bool {
    is_letter(c) || is_digit(c) || c == '#' || c == '\'' || c == '^' || c == '-' || c == '.'
        || c == '_'
}

/// A character of a chord's mode.
pub open spec fn is_mode_char(c: char) -> bool {
    is_letter(c) || is_digit(c) || c == '#' || c == '^' || c == '-'
}

/// A character of a name after its first letter.
pub open spec fn is_name_char(c: char) -> bool {
    is_letter(c) || is_digit(c) || c == '_'
}

/// The position of the first character at or after `p` that is no white space.
pub open spec fn skip_space(s: Seq<char>, p: int) -> int
    decreases s.len() - p,
{
    if 0 <= p < s.len() && is_space(s[p]) {
        skip_space(s, p + 1)
    } else {
        p
    }
}

/// The position of the first character at or after `p` that is no word character.
pub open spec fn word_end(s: Seq<char>, p: int) -> int
    decreases s.len() - p,
{
    if 0 <= p < s.len() && is_word_char(s[p]) {
        word_end(s, p + 1)
    } else {
        p
    }
}

proof fn lemma_skip_space(s: Seq<char>, p: int)
    requires
        0 <= p <= s.len(),
    ensures
        p <= skip_space(s, p) <= s.len(),
        skip_space(s, p) < s.len() ==> !is_space(s[skip_space(s, p)]),
    decreases s.len() - p,
{
    if p < s.len() && is_space(s[p]) {
        lemma_skip_space(s, p + 1);
    }
}

proof fn lemma_word_end(s: Seq<char>, p: int)
    requires
        0 <= p <= s.len(),
    ensures
        p <= word_end(s, p) <= s.len(),
        forall|i: int| p <= i < word_end(s, p) ==> is_word_char(#[trigger] s[i]),
    decreases s.len() - p,
{
    if p < s.len() && is_word_char(s[p]) {
        lemma_word_end(s, p + 1);
    }
}

/// The length of a word's sign: 1 for a leading `-`, else 0.
pub open spec fn sign_len(w: Seq<char>) -> int {
    if w.len() > 0 && w[0] == '-' {
        1
    } else {
        0
    }
}

/// An integer: an optional `-` followed by one or more decimal digits.
pub open spec fn is_integer_word(w: Seq<char>) -> bool {
    &&& w.len() > sign_len(w)
    &&& forall|i: int| sign_len(w) <= i < w.len() ==> is_digit(w[i])
}

/// The number of `.` in a text.
pub open spec fn dot_count(w: Seq<char>) -> nat
    decreases w.len(),
{
    if w.len() == 0 {
        0
    } else {
        dot_count(w.drop_last()) + if w.last() == '.' {
            1nat
        } else {
            0nat
        }
    }
}

/// A number with a decimal point: an optional `-`, then digits and one `.`, with at least
/// one digit.
pub open spec fn is_float_word(w: Seq<char>) -> bool {
    &&& w.len() >= sign_len(w) + 2
    &&& forall|i: int| sign_len(w) <= i < w.len() ==> is_digit(w[i]) || w[i] == '.'
    &&& dot_count(w) == 1
}

/// The length of the pitch at the start of a word that starts with a note letter: the
/// letter, then a `#` or `b` if one follows, then a digit if one follows.
pub open spec fn pitch_len(w: Seq<char>) -> int {
    let m = if w.len() > 1 && (w[1] == '#' || w[1] == 'b') {
        2int
    } else {
        1int
    };
    if w.len() > m && is_digit(w[m]) {
        m + 1
    } else {
        m
    }
}

/// The length of the mark of the pitch at the start of a word.
pub open spec fn mark_len(w: Seq<char>) -> int {
    if w.len() > 1 && (w[1] == '#' || w[1] == 'b') {
        1
    } else {
        0
    }
}

/// Whether a word starts with a note letter.
pub open spec fn starts_with_note(w: Seq<char>) -> bool {
    w.len() > 0 && ('a' <= w[0] && w[0] <= 'g' || 'A' <= w[0] && w[0] <= 'G')
}

/// The key within the octave and the octave of the pitch at the start of a word.
pub open spec fn word_pitch(w: Seq<char>) -> (int, int) {
    pitch_of_parts(
        w.subrange(0, 1),
        w.subrange(1 + mark_len(w), pitch_len(w)),
        w.subrange(1, 1 + mark_len(w)),
    )
}

/// A chord: a pitch, `'` and a mode of one or more mode characters.
pub open spec fn is_chord_word(w: Seq<char>) -> bool {
    &&& starts_with_note(w)
    &&& pitch_len(w) + 1 < w.len()
    &&& w[pitch_len(w)] == '\''
    &&& forall|i: int| pitch_len(w) + 1 <= i < w.len() ==> is_mode_char(w[i])
}

/// A name: a letter followed by letters, digits and `_`.
pub open spec fn is_name_word(w: Seq<char>) -> bool {
    &&& w.len() > 0
    &&& is_letter(w[0])
    &&& forall|i: int| 1 <= i < w.len() ==> is_name_char(w[i])
}

/// The value of a hexadecimal digit, in either ASCII case.
pub open spec fn hex_digit(c: char) -> Option<int> {
    if '0' <= c && c <= '9' {
        Some(c as int - '0' as int)
    } else if 'a' <= c && c <= 'f' {
        Some(c as int - 'a' as int + 10)
    } else if 'A' <= c && c <= 'F' {
        Some(c as int - 'A' as int + 10)
    } else {
        None
    }
}

/// The value of a text of hexadecimal digits, `None` when one is no such digit.
pub open spec fn hex_value(ds: Seq<char>) -> Option<int>
    decreases ds.len(),
{
    if ds.len() == 0 {
        Some(0)
    } else {
        match (hex_value(ds.drop_last()), hex_digit(ds.last())) {
            (Some(v), Some(h)) => Some(v * 16 + h),
            _ => None,
        }
    }
}

/// The integer of a hexadecimal word: an optional `-`, then `0x` or `0X` and one or more
/// hexadecimal digits whose value fits an `i32`.
pub open spec fn hex_of(w: Seq<char>) -> Option<i32> {
    let s = sign_len(w);
    if w.len() > s + 2 && w[s] == '0' && (w[s + 1] == 'x' || w[s + 1] == 'X') {
        match hex_value(w.subrange(s + 2, w.len() as int)) {
            Some(v) => if v <= i32::MAX {
                Some(
                    if s == 1 {
                        (-v) as i32
                    } else {
                        v as i32
                    },
                )
            } else {
                None
            },
            None => None,
        }
    } else {
        None
    }
}

/// The index of the first `.` of a text at or after `i`, its length where there is none.
pub open spec fn first_dot(w: Seq<char>, i: int) -> int
    decreases w.len() - i,
{
    if i < 0 || i >= w.len() {
        w.len() as int
    } else if w[i] == '.' {
        i
    } else {
        first_dot(w, i + 1)
    }
}

/// The bounds of a range word: two integers joined by `..`.
pub open spec fn range_of(w: Seq<char>) -> Option<(i32, i32)> {
    let k = first_dot(w, 0);
    let left = w.subrange(0, k);
    let right = w.subrange(k + 2, w.len() as int);
    if k + 1 < w.len() && w[k + 1] == '.' && is_integer_word(left) && is_integer_word(right) {
        match (spec_parse_i32(left), spec_parse_i32(right)) {
            (Ok(x), Ok(y)) => Some((x, y)),
            _ => None,
        }
    } else {
        None
    }
}

/// A target: `#` and an integer gives an index; a letter and a number with a decimal point
/// give the letter as a name with that number.
pub open spec fn target_word(w: Seq<char>) -> Option<TargetModel> {
    let rest = w.subrange(1, w.len() as int);
    if w.len() >= 2 && w[0] == '#' && is_integer_word(rest) {
        match spec_parse_i32(rest) {
            Ok(v) => Some(TargetModel::Index(v)),
            Err(_) => None,
        }
    } else if w.len() >= 2 && is_letter(w[0]) && is_float_word(rest) {
        Some(TargetModel::Named(w.subrange(0, 1), Some(rest)))
    } else {
        None
    }
}

/// The value that a word gives: a rest for `-`, an integer for a hexadecimal word, `None`
/// for a word that is none of the kinds above or an integer out of the `i32` range.
pub open spec fn word_value(w: Seq<char>) -> Option<ValueModel> {
    if w == seq!['-'] {
        Some(ValueModel::Rest)
    } else if hex_of(w) is Some {
        Some(ValueModel::Integer(hex_of(w)->0))
    } else if is_integer_word(w) {
        match spec_parse_i32(w) {
            Ok(v) => Some(ValueModel::Integer(v)),
            Err(_) => None,
        }
    } else if is_float_word(w) {
        Some(ValueModel::Float(w))
    } else if starts_with_note(w) && pitch_len(w) == w.len() {
        Some(ValueModel::Pitch(word_pitch(w).0, word_pitch(w).1))
    } else if is_chord_word(w) {
        Some(
            ValueModel::Chord(
                word_pitch(w).0,
                word_pitch(w).1,
                w.subrange(pitch_len(w) + 1, w.len() as int),
            ),
        )
    } else if target_word(w) is Some {
        Some(ValueModel::Target(target_word(w)->0))
    } else if is_name_word(w) {
        Some(ValueModel::Name(w))
    } else {
        None
    }
}

fn is_space_exec(c: char) -> (r: bool)
    ensures
        r == is_space(c),
{
    c == ' ' || c == '\t' || c == '\r' || c == '\n'
}

fn is_letter_exec(c: char) -> (r: bool)
    ensures
        r == is_letter(c),
{
    ('a' <= c && c <= 'z') || ('A' <= c && c <= 'Z')
}

fn is_digit_exec(c: char) -> (r: bool)
    ensures
        r == is_digit(c),
{
    '0' <= c && c <= '9'
}

fn is_word_char_exec(c: char) -> (r: bool)
    ensures
        r == is_word_char(c),
{
    is_letter_exec(c) || is_digit_exec(c) || c == '#' || c == '\'' || c == '^' || c == '-' || c
        == '.' || c == '_'
}

fn skip_space_exec(cs: &Vec<char>, p: usize) -> (r: usize)
    requires
        p <= cs@.len(),
    ensures
        r == skip_space(cs@, p as int),
        p <= r <= cs@.len(),
{
    let mut q = p;
    while q < cs.len() && is_space_exec(cs[q])
        invariant
            p <= q <= cs@.len(),
            skip_space(cs@, q as int) == skip_space(cs@, p as int),
        decreases cs@.len() - q,
    {
        q = q + 1;
    }
    q
}

fn word_end_exec(cs: &Vec<char>, p: usize) -> (r: usize)
    requires
        p <= cs@.len(),
    ensures
        r == word_end(cs@, p as int),
        p <= r <= cs@.len(),
{
    let mut q = p;
    while q < cs.len() && is_word_char_exec(cs[q])
        invariant
            p <= q <= cs@.len(),
            word_end(cs@, q as int) == word_end(cs@, p as int),
        decreases cs@.len() - q,
    {
        q = q + 1;
    }
    q
}

/// Whether all characters of `w` from `from` on are digits (for `kind == 1`), digits or `.`
/// (2), mode characters (3) or name characters (4).
fn all_of_kind(w: &Vec<char>, from: usize, kind: u8) -> (r: bool)
    requires
        from <= w@.len(),
    ensures
        kind == 1 ==> (r <==> forall|i: int| from <= i < w@.len() ==> is_digit(w@[i])),
        kind == 2 ==> (r <==> forall|i: int|
            from <= i < w@.len() ==> is_digit(w@[i]) || w@[i] == '.'),
        kind == 3 ==> (r <==> forall|i: int| from <= i < w@.len() ==> is_mode_char(w@[i])),
        kind == 4 ==> (r <==> forall|i: int| from <= i < w@.len() ==> is_name_char(w@[i])),
{
    let mut i = from;
    while i < w.len()
        invariant
            from <= i <= w@.len(),
            kind == 1 ==> forall|j: int| from <= j < i ==> is_digit(w@[j]),
            kind == 2 ==> forall|j: int| from <= j < i ==> is_digit(w@[j]) || w@[j] == '.',
            kind == 3 ==> forall|j: int| from <= j < i ==> is_mode_char(w@[j]),
            kind == 4 ==> forall|j: int| from <= j < i ==> is_name_char(w@[j]),
        decreases w@.len() - i,
    {
        let c = w[i];
        let ok = if kind == 1 {
            is_digit_exec(c)
        } else if kind == 2 {
            is_digit_exec(c) || c == '.'
        } else if kind == 3 {
            is_letter_exec(c) || is_digit_exec(c) || c == '#' || c == '^' || c == '-'
        } else {
            is_letter_exec(c) || is_digit_exec(c) || c == '_'
        };
        if !ok {
            return false;
        }
        i = i + 1;
    }
    true
}

fn dot_count_exec(w: &Vec<char>) -> (r: usize)
    ensures
        r == dot_count(w@),
{
    let mut n: usize = 0;
    let mut i: usize = 0;
    while i < w.len()
        invariant
            i <= w@.len(),
            n == dot_count(w@.subrange(0, i as int)),
            n <= i,
        decreases w@.len() - i,
    {
        assert(w@.subrange(0, i + 1).drop_last() =~= w@.subrange(0, i as int));
        if w[i] == '.' {
            n = n + 1;
        }
        i = i + 1;
    }
    assert(w@.subrange(0, w@.len() as int) =~= w@);
    n
}

fn hex_digit_exec(c: char) -> (r: Option<u32>)
    ensures
        match r {
            Some(v) => hex_digit(c) == Some(v as int) && v < 16,
            None => hex_digit(c) is None,
        },
{
    if '0' <= c && c <= '9' {
        Some(c as u32 - '0' as u32)
    } else if 'a' <= c && c <= 'f' {
        Some(c as u32 - 'a' as u32 + 10)
    } else if 'A' <= c && c <= 'F' {
        Some(c as u32 - 'A' as u32 + 10)
    } else {
        None
    }
}

proof fn lemma_hex_value_grows(ds: Seq<char>, i: int)
    requires
        0 <= i <= ds.len(),
        hex_value(ds) is Some,
    ensures
        hex_value(ds.take(i)) is Some,
        hex_value(ds.take(i))->0 <= hex_value(ds)->0,
        hex_value(ds)->0 >= 0,
    decreases ds.len(),
{
    if ds.len() > 0 {
        lemma_hex_value_grows(ds.drop_last(), if i < ds.len() { i } else { ds.len() - 1 });
        if i < ds.len() {
            assert(ds.drop_last().take(i) =~= ds.take(i));
        } else {
            assert(ds.take(i) =~= ds);
        }
    } else {
        assert(ds.take(i) =~= ds);
    }
}

#[verifier::loop_isolation(false)]
fn hex_exec(w: &Vec<char>) -> (r: Option<i32>)
    ensures
        r == hex_of(w@),
{
    let n = w.len();
    let s: usize = if n > 0 && w[0] == '-' {
        1
    } else {
        0
    };
    if !(n > s + 2 && w[s] == '0' && (w[s + 1] == 'x' || w[s + 1] == 'X')) {
        return None;
    }
    let ghost ds = w@.subrange(s + 2, n as int);
    let mut v: u64 = 0;
    let mut i: usize = s + 2;
    assert(ds.take(0) =~= Seq::<char>::empty());
    while i < n
        invariant
            s + 2 <= i <= n,
            n == w@.len(),
            ds == w@.subrange(s + 2, n as int),
            hex_value(ds.take(i - s - 2)) == Some(v as int),
            v <= i32::MAX,
        decreases n - i,
    {
        assert(ds.take(i - s - 1).drop_last() =~= ds.take(i - s - 2));
        assert(ds.take(i - s - 1).last() == w@[i as int]);
        match hex_digit_exec(w[i]) {
            Some(h) => {
                let nv = v * 16 + h as u64;
                if nv > i32::MAX as u64 {
                    proof {
                        if hex_value(ds) is Some {
                            lemma_hex_value_grows(ds, i - s - 1);
                        }
                    }
                    return None;
                }
                v = nv;
            },
            None => {
                proof {
                    if hex_value(ds) is Some {
                        lemma_hex_value_grows(ds, i - s - 1);
                    }
                }
                return None;
            },
        }
        i = i + 1;
    }
    assert(ds.take(n - s - 2) =~= ds);
    if s == 1 {
        Some(-(v as i32))
    } else {
        Some(v as i32)
    }
}

/// The value of the word `w`, whose text is `text`, see `word_value`.
fn word_value_exec(w: &Vec<char>, text: &str) -> (r: Option<Value>)
    requires
        w@ == text@,
    ensures
        match r {
            Some(v) => word_value(w@) == Some(v.model()),
            None => word_value(w@) is None,
        },
{
    let n = w.len();
    if n == 1 && w[0] == '-' {
        assert(w@ =~= seq!['-']);
        return Some(Value::Rest);
    }
    match hex_exec(w) {
        Some(v) => {
            return Some(Value::Integer(v));
        },
        None => {},
    }
    let sign: usize = if n > 0 && w[0] == '-' {
        1
    } else {
        0
    };
    if n > sign && all_of_kind(w, sign, 1) {
        assert(w@.subrange(0, w@.len() as int) =~= w@);
        return match parse_i32(w, 0) {
            Ok(v) => Some(Value::Integer(v)),
            Err(_) => None,
        };
    }
    if n >= sign + 2 && all_of_kind(w, sign, 2) && dot_count_exec(w) == 1 {
        return Some(Value::Float(text.to_owned()));
    }
    let c0 = if n > 0 {
        w[0]
    } else {
        ' '
    };
    let note = n > 0 && (('a' <= c0 && c0 <= 'g') || ('A' <= c0 && c0 <= 'G'));
    if note {
        let m: usize = if n > 1 && (w[1] == '#' || w[1] == 'b') {
            2
        } else {
            1
        };
        let pl: usize = if n > m && is_digit_exec(w[m]) {
            m + 1
        } else {
            m
        };
        assert(pl == pitch_len(w@));
        assert(m - 1 == mark_len(w@));
        let pitch = Pitch::from_parts(
            text.substring_char(0, 1),
            text.substring_char(m, pl),
            text.substring_char(1, m),
        );
        if pl == n {
            return Some(Value::Pitch(pitch));
        }
        if pl + 1 < n && w[pl] == '\'' && all_of_kind(w, pl + 1, 3) {
            let mode = text.substring_char(pl + 1, n).to_owned();
            return Some(Value::Chord(pitch, mode));
        }
    }
    if n >= 2 && (w[0] == '#' || is_letter_exec(w[0])) {
        let mut rest: Vec<char> = Vec::new();
        let mut i: usize = 1;
        while i < n
            invariant
                1 <= i <= n,
                n == w@.len(),
                rest@ =~= w@.subrange(1, i as int),
            decreases n - i,
        {
            rest.push(w[i]);
            i = i + 1;
        }
        let rn = rest.len();
        let rs: usize = if rn > 0 && rest[0] == '-' {
            1
        } else {
            0
        };
        if w[0] == '#' {
            if rn > rs && all_of_kind(&rest, rs, 1) {
                assert(rest@.subrange(0, rest@.len() as int) =~= rest@);
                return match parse_i32(&rest, 0) {
                    Ok(v) => Some(Value::Target(Target::Index(v))),
                    Err(_) => None,
                };
            }
        } else if rn >= rs + 2 && all_of_kind(&rest, rs, 2) && dot_count_exec(&rest) == 1 {
            let name = text.substring_char(0, 1).to_owned();
            let number = text.substring_char(1, n).to_owned();
            return Some(Value::Target(Target::Named(name, Some(number))));
        }
    }
    if n > 0 && is_letter_exec(w[0]) && all_of_kind(w, 1, 4) {
        return Some(Value::Name(text.to_owned()));
    }
    None
}

// ---------------------------------------------------------------------------------------------
// Sections, choices, repeats and groups

/// An element of a section: a step, the choice mark `|` between two steps, or the mark
/// `.` that splits a section into parts.
pub enum Elem {
    Step(Step),
    Choice,
    Split,
}

/// What an `Elem` holds.
pub enum ElemModel {
    Step(StepModel),
    Choice,
    Split,
}

impl Elem {
    pub open spec fn model(&self) -> ElemModel {
        match self {
            Elem::Step(st) => ElemModel::Step(st.model()),
            Elem::Choice => ElemModel::Choice,
            Elem::Split => ElemModel::Split,
        }
    }
}

/// What the elements of a vector hold, in order.
pub open spec fn elem_models(v: Seq<Elem>) -> Seq<ElemModel> {
    Seq::new(v.len(), |i: int| v[i].model())
}

/// What the sections of a vector hold, in order.
pub open spec fn section_models(v: Seq<Vec<Elem>>) -> Seq<Seq<ElemModel>> {
    Seq::new(v.len(), |i: int| elem_models(v[i]@))
}

/// The steps of a section from index `i` on, grouped by the choice marks between them:
/// `a | b c` gives the groups `[a, b]` and `[c]`. `None` where a choice mark does not stand
/// between two steps.
pub open spec fn choice_groups(sec: Seq<ElemModel>, i: int) -> Option<Seq<Seq<StepModel>>>
    decreases sec.len() - i,
{
    if i < 0 || i >= sec.len() {
        Some(Seq::empty())
    } else {
        match sec[i] {
            ElemModel::Choice => None,
            ElemModel::Split => None,
            ElemModel::Step(st) => if i + 1 < sec.len() && sec[i + 1] is Choice {
                if i + 2 < sec.len() && sec[i + 2] is Step {
                    match choice_groups(sec, i + 2) {
                        Some(gs) => if gs.len() > 0 {
                            Some(gs.update(0, seq![st] + gs[0]))
                        } else {
                            None
                        },
                        None => None,
                    }
                } else {
                    None
                }
            } else {
                match choice_groups(sec, i + 1) {
                    Some(gs) => Some(seq![seq![st]] + gs),
                    None => None,
                }
            },
        }
    }
}

/// How many times a replicate or weight expression counts its step: the integer, where
/// it is positive, else once.
pub open spec fn repeat_count(v: ValueModel) -> int {
    match v {
        ValueModel::Integer(n) => if n > 0 {
            n as int
        } else {
            1
        },
        _ => 1,
    }
}

/// The steps after a step is added to `acc`: a repeat adds the last step (a rest where there
/// is none), a replicate expression its step as often as it counts, a weight expression its
/// step followed by a hold for each further count, a range its integers; any other step is
/// added as it is.
pub open spec fn push_applied(acc: Seq<StepModel>, st: StepModel) -> Seq<StepModel> {
    match st {
        StepModel::Repeat => acc.push(
            if acc.len() > 0 {
                acc.last()
            } else {
                rest_model()
            },
        ),
        StepModel::Replicate(l, v) => acc + Seq::new(repeat_count(v) as nat, |i: int| *l),
        StepModel::Range(x, y) => acc + range_steps(x as int, y as int),
        StepModel::Weight(l, v) => acc.push(*l) + Seq::new(
            (repeat_count(v) - 1) as nat,
            |i: int| hold_model(),
        ),
        _ => acc.push(st),
    }
}

/// The single integer step of `v`, with its decimal text.
pub open spec fn integer_model(v: int) -> StepModel {
    StepModel::Single(ValueModel::Integer(v as i32), int_text(v))
}

/// The integer steps from `x` to `y`, counting up or down.
pub open spec fn range_steps(x: int, y: int) -> Seq<StepModel> {
    if x <= y {
        Seq::new((y - x + 1) as nat, |i: int| integer_model(x + i))
    } else {
        Seq::new((x - y + 1) as nat, |i: int| integer_model(x - i))
    }
}

/// The steps that a list of steps gives once each is added with `push_applied`.
pub open spec fn applied(steps: Seq<StepModel>) -> Seq<StepModel>
    decreases steps.len(),
{
    if steps.len() == 0 {
        Seq::empty()
    } else {
        push_applied(applied(steps.drop_last()), steps.last())
    }
}

/// The step of a choice group: the choices between its steps, or its one step.
pub open spec fn group_step(g: Seq<StepModel>) -> StepModel {
    if g.len() > 1 {
        StepModel::Choices(applied(g))
    } else if g.len() == 1 {
        g[0]
    } else {
        rest_model()
    }
}

/// The steps of a part of a section.
pub open spec fn part_steps(sec: Seq<ElemModel>) -> Option<Seq<StepModel>> {
    match choice_groups(sec, 0) {
        Some(gs) => Some(applied(Seq::new(gs.len(), |i: int| group_step(gs[i])))),
        None => None,
    }
}

/// The parts of a section split at its `.` marks.
pub open spec fn split_parts(sec: Seq<ElemModel>) -> Seq<Seq<ElemModel>>
    decreases sec.len(),
{
    if sec.len() == 0 {
        seq![Seq::empty()]
    } else {
        let r = split_parts(sec.drop_last());
        if sec.last() is Split {
            r.push(Seq::empty())
        } else {
            r.update(r.len() - 1, r.last().push(sec.last()))
        }
    }
}

/// The steps of each part, in order.
pub open spec fn all_parts(parts: Seq<Seq<ElemModel>>) -> Option<Seq<Seq<StepModel>>>
    decreases parts.len(),
{
    if parts.len() == 0 {
        Some(Seq::empty())
    } else {
        match (all_parts(parts.drop_last()), part_steps(parts.last())) {
            (Some(a), Some(b)) => Some(a.push(b)),
            _ => None,
        }
    }
}

/// The steps of a section: a subdivision for each of its parts when `.` splits it, else the
/// steps of its one part.
pub open spec fn section_steps(sec: Seq<ElemModel>) -> Option<Seq<StepModel>> {
    let parts = split_parts(sec);
    if parts.len() > 1 {
        match all_parts(parts) {
            Some(ps) => Some(Seq::new(ps.len(), |i: int| StepModel::Subdivision(ps[i]))),
            None => None,
        }
    } else {
        part_steps(sec)
    }
}

/// The steps of each section, in order.
pub open spec fn all_sections(secs: Seq<Seq<ElemModel>>) -> Option<Seq<Seq<StepModel>>>
    decreases secs.len(),
{
    if secs.len() == 0 {
        Some(Seq::empty())
    } else {
        match (all_sections(secs.drop_last()), section_steps(secs.last())) {
            (Some(a), Some(b)) => Some(a.push(b)),
            _ => None,
        }
    }
}

/// The lists that are not empty, in order.
pub open spec fn non_empty(ss: Seq<Seq<StepModel>>) -> Seq<Seq<StepModel>>
    decreases ss.len(),
{
    if ss.len() == 0 {
        Seq::empty()
    } else if ss.last().len() > 0 {
        non_empty(ss.drop_last()).push(ss.last())
    } else {
        non_empty(ss.drop_last())
    }
}

/// The stacked step lists of a body: the steps of each section, empty ones left out.
pub open spec fn stacks(secs: Seq<Seq<ElemModel>>) -> Option<Seq<Seq<StepModel>>> {
    match all_sections(secs) {
        Some(a) => Some(non_empty(a)),
        None => None,
    }
}

/// The step that a group makes of its steps: a subdivision or an alternation.
pub open spec fn wrap_group(alternating: bool, steps: Seq<StepModel>) -> StepModel {
    if alternating {
        StepModel::Alternating(steps)
    } else {
        StepModel::Subdivision(steps)
    }
}

/// The step of a `[...]` or `<...>` group: a rest when it has no steps, the group of its
/// steps when it has one section with steps, else a stack of one group per such section.
pub open spec fn group_model(secs: Seq<Seq<ElemModel>>, alternating: bool) -> Option<StepModel> {
    match stacks(secs) {
        Some(st) => if st.len() == 0 {
            Some(rest_model())
        } else if st.len() == 1 {
            Some(wrap_group(alternating, st[0]))
        } else {
            Some(StepModel::Stack(Seq::new(st.len(), |i: int| wrap_group(alternating, st[i]))))
        },
        None => None,
    }
}

/// The count step that a polymeter without one gets: the number of steps of its first
/// section.
pub open spec fn count_model(n: int) -> StepModel {
    StepModel::Single(ValueModel::Integer(n as i32), int_text(n as i32 as int))
}

/// The step of a `{...}` group with an optional count: a rest when it has no steps; with a
/// count, a polymeter per section with steps (stacked when there are several); without one,
/// a subdivision for a single section, else polymeters counted by the first section.
pub open spec fn polymeter_model(secs: Seq<Seq<ElemModel>>, count: Option<StepModel>) -> Option<
    StepModel,
> {
    match stacks(secs) {
        Some(st) => if st.len() == 0 {
            Some(rest_model())
        } else {
            match count {
                Some(c) => if st.len() == 1 {
                    Some(StepModel::Polymeter(st[0], Box::new(c)))
                } else {
                    Some(
                        StepModel::Stack(
                            Seq::new(st.len(), |i: int| StepModel::Polymeter(st[i], Box::new(c))),
                        ),
                    )
                },
                None => if st.len() == 1 {
                    Some(StepModel::Subdivision(st[0]))
                } else if st[0].len() > 0 {
                    Some(
                        StepModel::Stack(
                            Seq::new(
                                st.len(),
                                |i: int|
                                    StepModel::Polymeter(
                                        st[i],
                                        Box::new(count_model(st[0].len() as int)),
                                    ),
                            ),
                        ),
                    )
                } else {
                    None
                },
            }
        },
        None => None,
    }
}

/// Whether a step is one that `push_applied` rewrites: a repeat, a replicate, a weight or a
/// range.
pub open spec fn is_static(st: StepModel) -> bool {
    st is Repeat || st is Replicate || st is Weight || st is Range
}

/// Steps that are no repeats, replicates, weights or ranges pass `applied` unchanged.
pub proof fn lemma_applied_keeps_plain_steps(steps: Seq<StepModel>)
    requires
        forall|i: int| 0 <= i < steps.len() ==> !is_static(#[trigger] steps[i]),
    ensures
        applied(steps) == steps,
    decreases steps.len(),
{
    if steps.len() > 0 {
        lemma_applied_keeps_plain_steps(steps.drop_last());
        assert(!is_static(steps[steps.len() - 1]));
        assert(applied(steps) =~= steps);
    }
}

/// A replicate expression with a positive count `n` becomes `n` copies of its step, and a
/// weight expression with count `n` its step followed by `n - 1` holds.
pub proof fn lemma_replicate_and_weight(l: StepModel, n: i32)
    requires
        n > 0,
    ensures
        applied(seq![StepModel::Replicate(Box::new(l), ValueModel::Integer(n))]) == Seq::new(
            n as nat,
            |i: int| l,
        ),
        applied(seq![StepModel::Weight(Box::new(l), ValueModel::Integer(n))]) == seq![l]
            + Seq::new((n - 1) as nat, |i: int| hold_model()),
{
    let r = seq![StepModel::Replicate(Box::new(l), ValueModel::Integer(n))];
    let w = seq![StepModel::Weight(Box::new(l), ValueModel::Integer(n))];
    assert(r.drop_last() =~= Seq::<StepModel>::empty());
    assert(w.drop_last() =~= Seq::<StepModel>::empty());
    assert(applied(r.drop_last()) == Seq::<StepModel>::empty());
    assert(r.last() == StepModel::Replicate(Box::new(l), ValueModel::Integer(n)));
    assert(repeat_count(ValueModel::Integer(n)) == n);
    assert(applied(r) == Seq::<StepModel>::empty() + Seq::new(n as nat, |i: int| l));
    assert(applied(r) =~= Seq::new(n as nat, |i: int| l));
    assert(applied(w) =~= seq![l] + Seq::new((n - 1) as nat, |i: int| hold_model()));
}

/// A body without any step, such as that of `[]`, `<>`, `{}` or `{}%2`, becomes a single
/// rest, whatever count a polymeter has.
pub proof fn lemma_empty_groups_are_rests(
    secs: Seq<Seq<ElemModel>>,
    alternating: bool,
    count: Option<StepModel>,
)
    requires
        stacks(secs) == Some(Seq::<Seq<StepModel>>::empty()),
    ensures
        group_model(secs, alternating) == Some(rest_model()),
        polymeter_model(secs, count) == Some(rest_model()),
{
}

/// A polymeter without a count whose body stacks several sections with steps is counted by
/// its first section: each section becomes a polymeter whose count is the number of steps
/// of the first.
pub proof fn lemma_polymeter_counted_by_first_section(secs: Seq<Seq<ElemModel>>)
    requires
        stacks(secs) matches Some(st) && st.len() > 1 && st[0].len() > 0,
    ensures
        polymeter_model(secs, None) matches Some(StepModel::Stack(ch)) && ch.len()
            == stacks(secs)->0.len() && forall|i: int|
            0 <= i < ch.len() ==> #[trigger] ch[i] == StepModel::Polymeter(
                stacks(secs)->0[i],
                Box::new(count_model(stacks(secs)->0[0].len() as int)),
            ),
{
}

// ---------------------------------------------------------------------------------------------
// The grammar

/// The default chance of a degrade expression without a number.
pub open spec fn half_text() -> Seq<char> {
    seq!['0', '.', '5']
}

/// The atom at position `p` and the position after it.
pub open spec fn spec_atom(s: Seq<char>, p: int) -> Option<(StepModel, int)>
    decreases s.len() - p, 0int,
{
    if p < 0 || p >= s.len() {
        None
    } else if s[p] == '[' || s[p] == '<' {
        let close = if s[p] == '[' {
            ']'
        } else {
            '>'
        };
        match spec_body(s, p + 1, Some(close)) {
            Some((secs, q)) => match group_model(secs, s[p] == '<') {
                Some(st) => Some((st, q + 1)),
                None => None,
            },
            None => None,
        }
    } else if s[p] == '{' {
        match spec_body(s, p + 1, Some('}')) {
            Some((secs, q)) => if q + 1 < s.len() && s[q + 1] == '%' && q > p {
                match spec_atom(s, q + 2) {
                    Some((c, e)) => match polymeter_model(secs, Some(c)) {
                        Some(st) => Some((st, e)),
                        None => None,
                    },
                    None => None,
                }
            } else {
                match polymeter_model(secs, None) {
                    Some(st) => Some((st, q + 1)),
                    None => None,
                }
            },
            None => None,
        }
    } else if s[p] == '~' {
        Some((rest_model(), p + 1))
    } else if s[p] == '_' {
        if p + 1 < s.len() && is_word_char(s[p + 1]) && s[p + 1] != '_' {
            None
        } else {
            Some((hold_model(), p + 1))
        }
    } else if is_word_char(s[p]) {
        let e = word_end(s, p);
        let w = s.subrange(p, e);
        match range_of(w) {
            Some((x, y)) => Some((StepModel::Range(x, y), e)),
            None => match word_value(w) {
                Some(v) => Some((StepModel::Single(v, w), e)),
                None => None,
            },
        }
    } else {
        None
    }
}

/// The sections of a body that starts at `p` and ends at the closing character `close`
/// (`None`: at the end of the text), and the position of that closing character.
pub open spec fn spec_body(s: Seq<char>, p: int, close: Option<char>) -> Option<
    (Seq<Seq<ElemModel>>, int),
>
    decreases s.len() - p, 3int,
{
    let q = skip_space(s, p);
    if p < 0 || q < p {
        None
    } else if q >= s.len() {
        if close is None {
            Some((seq![Seq::empty()], q))
        } else {
            None
        }
    } else if close == Some(s[q]) {
        Some((seq![Seq::empty()], q))
    } else if s[q] == ',' {
        match spec_body(s, q + 1, close) {
            Some((secs, e)) => Some((seq![Seq::empty()] + secs, e)),
            None => None,
        }
    } else {
        let el = if s[q] == '|' {
            Some((ElemModel::Choice, q + 1))
        } else if s[q] == '!' {
            Some((ElemModel::Step(StepModel::Repeat), q + 1))
        } else if s[q] == '.' && !(q + 1 < s.len() && is_word_char(s[q + 1])) {
            Some((ElemModel::Split, q + 1))
        } else {
            match spec_step(s, q) {
                Some((st, e)) => Some((ElemModel::Step(st), e)),
                None => None,
            }
        };
        match el {
            Some((el, e)) => if q < e <= s.len() {
                match spec_body(s, e, close) {
                    Some((secs, f)) => if secs.len() > 0 {
                        Some((secs.update(0, seq![el] + secs[0]), f))
                    } else {
                        None
                    },
                    None => None,
                }
            } else {
                None
            },
            None => None,
        }
    }
}

/// The key of a target assignment `name=` or `#=` at position `p`: a name (`None` for `#`)
/// and the position of the `=`.
pub open spec fn assign_key(s: Seq<char>, p: int) -> Option<(Option<Seq<char>>, int)> {
    let e = word_end(s, p);
    if 0 <= p < e < s.len() && s[e] == '=' {
        let w = s.subrange(p, e);
        if w == seq!['#'] {
            Some((None, e))
        } else if is_name_word(w) {
            Some((Some(w), e))
        } else {
            None
        }
    } else {
        None
    }
}

/// The step at position `p`, an atom with its operators, and the position after it.
pub open spec fn spec_step(s: Seq<char>, p: int) -> Option<(StepModel, int)>
    decreases s.len() - p, 2int,
{
    match spec_atom(s, p) {
        Some((a, e)) => if p < e <= s.len() {
            spec_ops(s, e, a)
        } else {
            None
        },
        None => None,
    }
}

/// The expression that the operators from position `p` on make of `left`, and the position
/// after them.
pub open spec fn spec_ops(s: Seq<char>, p: int, left: StepModel) -> Option<(StepModel, int)>
    decreases s.len() - p, 1int,
{
    if p < 0 || p >= s.len() {
        Some((left, p))
    } else if s[p] == ':' && assign_key(s, p + 1) is Some {
        let (key, e) = assign_key(s, p + 1)->0;
        match spec_atom(s, e + 1) {
            Some((r, f)) => if p < f <= s.len() {
                spec_ops(
                    s,
                    f,
                    StepModel::Target(Box::new(left), Box::new(assign_targets(r, key))),
                )
            } else {
                None
            },
            None => None,
        }
    } else if s[p] == '*' || s[p] == '/' || s[p] == ':' {
        match spec_atom(s, p + 1) {
            Some((r, e)) => if p < e <= s.len() {
                let l = Box::new(left);
                let r = Box::new(r);
                spec_ops(
                    s,
                    e,
                    if s[p] == '*' {
                        StepModel::Fast(l, r)
                    } else if s[p] == '/' {
                        StepModel::Slow(l, r)
                    } else {
                        StepModel::Target(l, r)
                    },
                )
            } else {
                None
            },
            None => None,
        }
    } else if s[p] == '!' || s[p] == '@' {
        let e = word_end(s, p + 1);
        let count = if e > p + 1 {
            let w = s.subrange(p + 1, e);
            if is_integer_word(w) {
                match spec_parse_i32(w) {
                    Ok(v) => Some(ValueModel::Integer(v)),
                    Err(_) => None,
                }
            } else {
                None
            }
        } else {
            Some(ValueModel::Integer(2))
        };
        match count {
            Some(v) => if p + 1 <= e <= s.len() {
                let l = Box::new(left);
                spec_ops(
                    s,
                    e,
                    if s[p] == '!' {
                        StepModel::Replicate(l, v)
                    } else {
                        StepModel::Weight(l, v)
                    },
                )
            } else {
                None
            },
            None => None,
        }
    } else if s[p] == '?' {
        let e = word_end(s, p + 1);
        let chance = if e > p + 1 {
            match word_value(s.subrange(p + 1, e)) {
                Some(ValueModel::Integer(v)) => Some(ValueModel::Integer(v)),
                Some(ValueModel::Float(t)) => Some(ValueModel::Float(t)),
                _ => None,
            }
        } else {
            Some(ValueModel::Float(half_text()))
        };
        match chance {
            Some(v) => if p + 1 <= e <= s.len() {
                spec_ops(s, e, StepModel::Degrade(Box::new(left), v))
            } else {
                None
            },
            None => None,
        }
    } else if s[p] == '(' {
        spec_euclid(s, p, left)
    } else {
        Some((left, p))
    }
}

/// The euclidean expression `(a, b)` or `(a, b, c)` at position `p` applied to `left`, with
/// the operators that follow it, and the position after them.
pub open spec fn spec_euclid(s: Seq<char>, p: int, left: StepModel) -> Option<(StepModel, int)>
    decreases s.len() - p, 0int,
{
    let q1 = skip_space(s, p + 1);
    if q1 <= p || q1 > s.len() {
        None
    } else {
        match spec_step(s, q1) {
            Some((a, e1)) => {
                let q2 = skip_space(s, e1);
                if e1 > p && q2 > p && q2 < s.len() && s[q2] == ',' {
                    let q3 = skip_space(s, q2 + 1);
                    if p < q3 <= s.len() {
                        match spec_step(s, q3) {
                            Some((b, e3)) => {
                                let q4 = skip_space(s, e3);
                                if e3 > p && q4 > p && q4 < s.len() && s[q4] == ')' {
                                    spec_ops(
                                        s,
                                        q4 + 1,
                                        StepModel::Bjorklund(
                                            Box::new(left),
                                            Box::new(a),
                                            Box::new(b),
                                            None,
                                        ),
                                    )
                                } else if e3 > p && q4 > p && q4 < s.len() && s[q4] == ',' {
                                    let q5 = skip_space(s, q4 + 1);
                                    if p < q5 <= s.len() {
                                        match spec_step(s, q5) {
                                            Some((c, e5)) => {
                                                let q6 = skip_space(s, e5);
                                                if e5 > p && q6 > p && q6 < s.len() && s[q6]
                                                    == ')' {
                                                    spec_ops(
                                                        s,
                                                        q6 + 1,
                                                        StepModel::Bjorklund(
                                                            Box::new(left),
                                                            Box::new(a),
                                                            Box::new(b),
                                                            Some(Box::new(c)),
                                                        ),
                                                    )
                                                } else {
                                                    None
                                                }
                                            },
                                            None => None,
                                        }
                                    } else {
                                        None
                                    }
                                } else {
                                    None
                                }
                            },
                            None => None,
                        }
                    } else {
                        None
                    }
                } else {
                    None
                }
            },
            None => None,
        }
    }
}

/// The step tree of a whole mini-notation text, `None` where the grammar refuses it.
pub open spec fn spec_parse(s: Seq<char>) -> Option<StepModel> {
    match spec_body(s, 0, None) {
        Some((secs, q)) => group_model(secs, false),
        None => None,
    }
}

/// Whether the grammar accepts a mini-notation text.
pub open spec fn spec_accepts(s: Seq<char>) -> bool {
    spec_parse(s) is Some
}

// ---------------------------------------------------------------------------------------------
// Building sections and groups

fn choice_groups_exec(sec: &Vec<Elem>, i: usize) -> (r: Option<Vec<Vec<Step>>>)
    requires
        i <= sec@.len(),
    ensures
        match r {
            Some(gs) => choice_groups(elem_models(sec@), i as int) == Some(
                nested_models(gs@),
            ),
            None => choice_groups(elem_models(sec@), i as int) is None,
        },
    decreases sec@.len() - i,
{
    let ghost m = elem_models(sec@);
    if i >= sec.len() {
        let r: Vec<Vec<Step>> = Vec::new();
        assert(nested_models(r@) =~= Seq::<Seq<StepModel>>::empty());
        return Some(r);
    }
    match &sec[i] {
        Elem::Choice => None,
        Elem::Split => None,
        Elem::Step(st) => {
            let next_is_choice = i + 1 < sec.len() && match &sec[i + 1] {
                Elem::Choice => true,
                _ => false,
            };
            assert(next_is_choice == (i + 1 < m.len() && m[i + 1] is Choice));
            if next_is_choice {
                let after_is_step = i + 2 < sec.len() && match &sec[i + 2] {
                    Elem::Step(_) => true,
                    _ => false,
                };
                assert(after_is_step == (i + 2 < m.len() && m[i + 2] is Step));
                if after_is_step {
                    match choice_groups_exec(sec, i + 2) {
                        Some(mut gs) => if gs.len() > 0 {
                            let ghost old_gs = nested_models(gs@);
                            let mut first = gs.remove(0);
                            let ghost old_first = child_models(&first);
                            first.insert(0, st.copy());
                            assert(child_models(&first) =~= seq![st.model()] + old_first);
                            gs.insert(0, first);
                            assert(nested_models(gs@) =~= old_gs.update(
                                0,
                                seq![st.model()] + old_gs[0],
                            ));
                            Some(gs)
                        } else {
                            None
                        },
                        None => None,
                    }
                } else {
                    None
                }
            } else {
                match choice_groups_exec(sec, i + 1) {
                    Some(mut gs) => {
                        let ghost old_gs = nested_models(gs@);
                        let mut g: Vec<Step> = Vec::new();
                        g.push(st.copy());
                        assert(child_models(&g) =~= seq![st.model()]);
                        gs.insert(0, g);
                        assert(nested_models(gs@) =~= seq![seq![st.model()]] + old_gs);
                        Some(gs)
                    },
                    None => None,
                }
            }
        },
    }
}

fn repeat_count_exec(v: &Value) -> (r: usize)
    ensures
        r == repeat_count(v.model()),
{
    match v {
        Value::Integer(n) => if *n > 0 {
            *n as usize
        } else {
            1
        },
        _ => 1,
    }
}

fn push_applied_exec(acc: &mut Vec<Step>, st: &Step)
    ensures
        child_models(final(acc)) == push_applied(child_models(old(acc)), st.model()),
{
    let ghost a0 = child_models(acc);
    match st {
        Step::Repeat => {
            let x = if acc.len() > 0 {
                acc[acc.len() - 1].copy()
            } else {
                rest_step()
            };
            acc.push(x);
            assert(child_models(acc) =~= push_applied(a0, st.model()));
        },
        Step::Replicate(l, v) => {
            let n = repeat_count_exec(v);
            let mut k: usize = 0;
            while k < n
                invariant
                    k <= n,
                    acc@.len() == a0.len() + k,
                    forall|j: int| 0 <= j < a0.len() ==> (#[trigger] acc@[j]).model() == a0[j],
                    forall|j: int|
                        a0.len() <= j < a0.len() + k ==> (#[trigger] acc@[j]).model()
                            == l.model(),
                decreases n - k,
            {
                let c = l.copy();
                acc.push(c);
                k = k + 1;
            }
            assert(child_models(acc) =~= a0 + Seq::new(n as nat, |i: int| l.model()));
        },
        Step::Range(x, y) => {
            let (x, y) = (*x as i64, *y as i64);
            let ghost rs = range_steps(x as int, y as int);
            let len: i64 = if x <= y {
                y - x + 1
            } else {
                x - y + 1
            };
            let mut k: i64 = 0;
            while k < len
                invariant
                    0 <= k <= len,
                    len == rs.len(),
                    rs == range_steps(x as int, y as int),
                    i32::MIN <= x <= i32::MAX,
                    i32::MIN <= y <= i32::MAX,
                    acc@.len() == a0.len() + k,
                    forall|j: int| 0 <= j < a0.len() ==> (#[trigger] acc@[j]).model() == a0[j],
                    forall|j: int|
                        a0.len() <= j < a0.len() + k ==> (#[trigger] acc@[j]).model() == rs[j
                            - a0.len()],
                decreases len - k,
            {
                let v = if x <= y {
                    x + k
                } else {
                    x - k
                };
                acc.push(integer_step(v as i32));
                k = k + 1;
            }
            assert(child_models(acc) =~= a0 + rs);
        },
        Step::Weight(l, v) => {
            let n = repeat_count_exec(v);
            acc.push(l.copy());
            let ghost a1 = a0.push(l.model());
            assert(child_models(acc) =~= a1);
            let mut k: usize = 1;
            while k < n
                invariant
                    1 <= k <= n,
                    acc@.len() == a1.len() + k - 1,
                    forall|j: int| 0 <= j < a1.len() ==> (#[trigger] acc@[j]).model() == a1[j],
                    forall|j: int|
                        a1.len() <= j < a1.len() + k - 1 ==> (#[trigger] acc@[j]).model()
                            == hold_model(),
                decreases n - k,
            {
                acc.push(hold_step());
                k = k + 1;
            }
            assert(child_models(acc) =~= a1 + Seq::new((n - 1) as nat, |i: int| hold_model()));
        },
        _ => {
            acc.push(st.copy());
            assert(child_models(acc) =~= push_applied(a0, st.model()));
        },
    }
}

fn apply_all(steps: &Vec<Step>) -> (r: Vec<Step>)
    ensures
        child_models(&r) == applied(child_models(steps)),
{
    let ghost m = child_models(steps);
    let mut r: Vec<Step> = Vec::new();
    let mut i: usize = 0;
    assert(child_models(&r) =~= applied(m.take(0)));
    while i < steps.len()
        invariant
            i <= steps@.len(),
            m == child_models(steps),
            child_models(&r) == applied(m.take(i as int)),
        decreases steps@.len() - i,
    {
        push_applied_exec(&mut r, &steps[i]);
        assert(m.take(i + 1).drop_last() =~= m.take(i as int));
        assert(m.take(i + 1).last() == steps@[i as int].model());
        i = i + 1;
    }
    assert(m.take(steps@.len() as int) =~= m);
    r
}

fn group_step_exec(g: &Vec<Step>) -> (r: Step)
    ensures
        r.model() == group_step(child_models(g)),
{
    if g.len() > 1 {
        Step::Choices(apply_all(g))
    } else if g.len() == 1 {
        g[0].copy()
    } else {
        rest_step()
    }
}

fn part_steps_exec(sec: &Vec<Elem>) -> (r: Option<Vec<Step>>)
    ensures
        match r {
            Some(v) => part_steps(elem_models(sec@)) == Some(child_models(&v)),
            None => part_steps(elem_models(sec@)) is None,
        },
{
    match choice_groups_exec(sec, 0) {
        Some(gs) => {
            let ghost gm = nested_models(gs@);
            let mut v: Vec<Step> = Vec::new();
            let mut i: usize = 0;
            while i < gs.len()
                invariant
                    i <= gs@.len(),
                    gm == nested_models(gs@),
                    v.len() == i,
                    forall|j: int| 0 <= j < i ==> (#[trigger] v@[j]).model() == group_step(gm[j]),
                decreases gs@.len() - i,
            {
                let st = group_step_exec(&gs[i]);
                v.push(st);
                i = i + 1;
            }
            assert(child_models(&v) =~= Seq::new(gm.len(), |i: int| group_step(gm[i])));
            Some(apply_all(&v))
        },
        None => None,
    }
}

fn copy_elem(e: &Elem) -> (r: Elem)
    ensures
        r.model() == e.model(),
{
    match e {
        Elem::Step(st) => Elem::Step(st.copy()),
        Elem::Choice => Elem::Choice,
        Elem::Split => Elem::Split,
    }
}

fn split_parts_exec(sec: &Vec<Elem>) -> (r: Vec<Vec<Elem>>)
    ensures
        section_models(r@) == split_parts(elem_models(sec@)),
{
    let ghost m = elem_models(sec@);
    let mut parts: Vec<Vec<Elem>> = Vec::new();
    parts.push(Vec::new());
    assert(elem_models(parts@[0]@) =~= Seq::<ElemModel>::empty());
    assert(section_models(parts@) =~= split_parts(m.take(0)));
    let mut i: usize = 0;
    while i < sec.len()
        invariant
            i <= sec@.len(),
            m == elem_models(sec@),
            parts@.len() >= 1,
            section_models(parts@) == split_parts(m.take(i as int)),
        decreases sec@.len() - i,
    {
        assert(m.take(i + 1).drop_last() =~= m.take(i as int));
        assert(m.take(i + 1).last() == sec@[i as int].model());
        let ghost before = section_models(parts@);
        match &sec[i] {
            Elem::Split => {
                let empty: Vec<Elem> = Vec::new();
                assert(elem_models(empty@) =~= Seq::<ElemModel>::empty());
                parts.push(empty);
                assert(section_models(parts@) =~= before.push(Seq::empty()));
            },
            _ => {
                let mut last = parts.pop().unwrap();
                let ghost lm = elem_models(last@);
                let e = copy_elem(&sec[i]);
                let ghost em = e.model();
                last.push(e);
                assert(elem_models(last@) =~= lm.push(em));
                parts.push(last);
                assert(section_models(parts@) =~= before.update(
                    before.len() - 1,
                    before.last().push(em),
                ));
            },
        }
        i = i + 1;
    }
    assert(m.take(sec@.len() as int) =~= m);
    parts
}

fn all_parts_exec(parts: &Vec<Vec<Elem>>) -> (r: Option<Vec<Vec<Step>>>)
    ensures
        match r {
            Some(v) => all_parts(section_models(parts@)) == Some(nested_models(v@)),
            None => all_parts(section_models(parts@)) is None,
        },
{
    let ghost m = section_models(parts@);
    let mut v: Vec<Vec<Step>> = Vec::new();
    let mut failed = false;
    let mut i: usize = 0;
    assert(nested_models(v@) =~= Seq::<Seq<StepModel>>::empty());
    assert(m.take(0) =~= Seq::<Seq<ElemModel>>::empty());
    while i < parts.len()
        invariant
            i <= parts@.len(),
            m == section_models(parts@),
            failed ==> all_parts(m.take(i as int)) is None,
            !failed ==> v@.len() == i,
            !failed ==> all_parts(m.take(i as int)) == Some(nested_models(v@)),
        decreases parts@.len() - i,
    {
        assert(m.take(i + 1).drop_last() =~= m.take(i as int));
        assert(m.take(i + 1).last() == elem_models(parts@[i as int]@));
        match part_steps_exec(&parts[i]) {
            Some(st) => {
                if !failed {
                    let ghost old_v = nested_models(v@);
                    let ghost stm = child_models(&st);
                    v.push(st);
                    assert(nested_models(v@) =~= old_v.push(stm));
                }
            },
            None => {
                failed = true;
            },
        }
        i = i + 1;
    }
    assert(m.take(parts@.len() as int) =~= m);
    if failed {
        None
    } else {
        Some(v)
    }
}

fn section_steps_exec(sec: &Vec<Elem>) -> (r: Option<Vec<Step>>)
    ensures
        match r {
            Some(v) => section_steps(elem_models(sec@)) == Some(child_models(&v)),
            None => section_steps(elem_models(sec@)) is None,
        },
{
    let parts = split_parts_exec(sec);
    if parts.len() > 1 {
        match all_parts_exec(&parts) {
            Some(ps) => {
                let ghost pm = nested_models(ps@);
                let mut out: Vec<Step> = Vec::new();
                let mut ps = ps;
                let n = ps.len();
                let mut rev: Vec<Vec<Step>> = Vec::new();
                while ps.len() > 0
                    invariant
                        ps@.len() + rev@.len() == n,
                        n == pm.len(),
                        forall|k: int| 0 <= k < ps@.len() ==> child_models(#[trigger] &ps@[k]) == pm[k],
                        forall|k: int|
                            0 <= k < rev@.len() ==> child_models(#[trigger] &rev@[k]) == pm[n - 1 - k],
                    decreases ps@.len(),
                {
                    let x = ps.pop().unwrap();
                    rev.push(x);
                }
                while rev.len() > 0
                    invariant
                        n == pm.len(),
                        out@.len() + rev@.len() == n,
                        forall|k: int|
                            0 <= k < rev@.len() ==> child_models(#[trigger] &rev@[k]) == pm[n - 1 - k],
                        forall|k: int|
                            0 <= k < out@.len() ==> (#[trigger] out@[k]).model()
                                == StepModel::Subdivision(pm[k]),
                    decreases rev@.len(),
                {
                    let x = rev.pop().unwrap();
                    out.push(Step::Subdivision(x));
                }
                assert(child_models(&out) =~= Seq::new(
                    pm.len(),
                    |k: int| StepModel::Subdivision(pm[k]),
                ));
                Some(out)
            },
            None => None,
        }
    } else {
        part_steps_exec(sec)
    }
}

fn all_sections_exec(secs: &Vec<Vec<Elem>>) -> (r: Option<Vec<Vec<Step>>>)
    ensures
        match r {
            Some(v) => all_sections(section_models(secs@)) == Some(nested_models(v@)),
            None => all_sections(section_models(secs@)) is None,
        },
{
    let ghost m = section_models(secs@);
    let mut v: Vec<Vec<Step>> = Vec::new();
    let mut failed = false;
    let mut i: usize = 0;
    assert(nested_models(v@) =~= Seq::<Seq<StepModel>>::empty());
    assert(m.take(0) =~= Seq::<Seq<ElemModel>>::empty());
    while i < secs.len()
        invariant
            i <= secs@.len(),
            m == section_models(secs@),
            failed ==> all_sections(m.take(i as int)) is None,
            !failed ==> v@.len() == i,
            !failed ==> all_sections(m.take(i as int)) == Some(nested_models(v@)),
        decreases secs@.len() - i,
    {
        assert(m.take(i + 1).drop_last() =~= m.take(i as int));
        assert(m.take(i + 1).last() == elem_models(secs@[i as int]@));
        let steps = section_steps_exec(&secs[i]);
        match steps {
            Some(st) => {
                if !failed {
                    let ghost old_v = nested_models(v@);
                    let ghost stm = child_models(&st);
                    v.push(st);
                    assert(nested_models(v@) =~= old_v.push(stm));
                }
            },
            None => {
                failed = true;
            },
        }
        i = i + 1;
    }
    assert(m.take(secs@.len() as int) =~= m);
    if failed {
        None
    } else {
        Some(v)
    }
}

fn non_empty_exec(ss: Vec<Vec<Step>>) -> (r: Vec<Vec<Step>>)
    ensures
        nested_models(r@) == non_empty(nested_models(ss@)),
{
    let ghost m = nested_models(ss@);
    let mut r: Vec<Vec<Step>> = Vec::new();
    let n = ss.len();
    let mut i: usize = 0;
    assert(m.take(0) =~= Seq::<Seq<StepModel>>::empty());
    while i < n
        invariant
            n == m.len(),
            i <= n,
            ss@.len() == n,
            forall|j: int| 0 <= j < n ==> child_models(#[trigger] &ss@[j]) == m[j],
            nested_models(r@) == non_empty(m.take(i as int)),
        decreases n - i,
    {
        assert(m.take(i + 1).drop_last() =~= m.take(i as int));
        assert(m.take(i + 1).last() == m[i as int]);
        if ss[i].len() > 0 {
            let c = copy_steps(&ss[i]);
            let ghost old_r = nested_models(r@);
            r.push(c);
            assert(nested_models(r@) =~= old_r.push(m[i as int]));
        }
        i = i + 1;
    }
    assert(m.take(n as int) =~= m);
    r
}

fn stacks_exec(secs: &Vec<Vec<Elem>>) -> (r: Option<Vec<Vec<Step>>>)
    ensures
        match r {
            Some(v) => stacks(section_models(secs@)) == Some(nested_models(v@)),
            None => stacks(section_models(secs@)) is None,
        },
{
    match all_sections_exec(secs) {
        Some(a) => Some(non_empty_exec(a)),
        None => None,
    }
}

fn wrap_group_exec(alternating: bool, steps: Vec<Step>) -> (r: Step)
    ensures
        r.model() == wrap_group(alternating, child_models(&steps)),
{
    if alternating {
        Step::Alternating(steps)
    } else {
        Step::Subdivision(steps)
    }
}

fn group_exec(secs: &Vec<Vec<Elem>>, alternating: bool) -> (r: Option<Step>)
    ensures
        match r {
            Some(st) => group_model(section_models(secs@), alternating) == Some(st.model()),
            None => group_model(section_models(secs@), alternating) is None,
        },
{
    match stacks_exec(secs) {
        Some(st) => {
            let ghost sm = nested_models(st@);
            if st.len() == 0 {
                Some(rest_step())
            } else if st.len() == 1 {
                let s0 = copy_steps(&st[0]);
                Some(wrap_group_exec(alternating, s0))
            } else {
                let mut v: Vec<Step> = Vec::new();
                let mut i: usize = 0;
                while i < st.len()
                    invariant
                        i <= st@.len(),
                        sm == nested_models(st@),
                        v.len() == i,
                        forall|j: int|
                            0 <= j < i ==> (#[trigger] v@[j]).model() == wrap_group(
                                alternating,
                                sm[j],
                            ),
                    decreases st@.len() - i,
                {
                    let c = copy_steps(&st[i]);
                    v.push(wrap_group_exec(alternating, c));
                    i = i + 1;
                }
                assert(child_models(&v) =~= Seq::new(
                    sm.len(),
                    |i: int| wrap_group(alternating, sm[i]),
                ));
                Some(Step::Stack(v))
            }
        },
        None => None,
    }
}

fn count_step(n: usize) -> (r: Step)
    ensures
        r.model() == count_model(n as int),
{
    let v = n as i32;
    let mut t = String::new();
    append_int(&mut t, v);
    assert(t@ =~= int_text(v as int));
    Step::Single(Value::Integer(v), t)
}

fn polymeter_exec(secs: &Vec<Vec<Elem>>, count: Option<Step>) -> (r: Option<Step>)
    ensures
        match r {
            Some(st) => polymeter_model(
                section_models(secs@),
                match count {
                    Some(c) => Some(c.model()),
                    None => None,
                },
            ) == Some(st.model()),
            None => polymeter_model(
                section_models(secs@),
                match count {
                    Some(c) => Some(c.model()),
                    None => None,
                },
            ) is None,
        },
{
    match stacks_exec(secs) {
        Some(st) => {
            let ghost sm = nested_models(st@);
            if st.len() == 0 {
                return Some(rest_step());
            }
            let (c, counted) = match count {
                Some(c) => (c, true),
                None => {
                    if st.len() == 1 {
                        return Some(Step::Subdivision(copy_steps(&st[0])));
                    }
                    if st[0].len() == 0 {
                        return None;
                    }
                    (count_step(st[0].len()), false)
                },
            };
            let ghost cm = c.model();
            if counted && st.len() == 1 {
                return Some(Step::Polymeter(copy_steps(&st[0]), Box::new(c)));
            }
            let mut v: Vec<Step> = Vec::new();
            let mut i: usize = 0;
            while i < st.len()
                invariant
                    i <= st@.len(),
                    sm == nested_models(st@),
                    cm == c.model(),
                    v.len() == i,
                    forall|j: int|
                        0 <= j < i ==> (#[trigger] v@[j]).model() == StepModel::Polymeter(
                            sm[j],
                            Box::new(cm),
                        ),
                decreases st@.len() - i,
            {
                let steps = copy_steps(&st[i]);
                v.push(Step::Polymeter(steps, Box::new(c.copy())));
                i = i + 1;
            }
            assert(child_models(&v) =~= Seq::new(
                sm.len(),
                |i: int| StepModel::Polymeter(sm[i], Box::new(cm)),
            ));
            Some(Step::Stack(v))
        },
        None => None,
    }
}

// ---------------------------------------------------------------------------------------------
// The parser

/// What a parse result holds: the step's model and the position after it.
pub open spec fn parsed(r: Option<(Step, usize)>) -> Option<(StepModel, int)> {
    match r {
        Some((st, e)) => Some((st.model(), e as int)),
        None => None,
    }
}

/// What a body parse result holds: the sections' models and the closing position.
pub open spec fn parsed_body(r: Option<(Vec<Vec<Elem>>, usize)>) -> Option<
    (Seq<Seq<ElemModel>>, int),
> {
    match r {
        Some((secs, q)) => Some((section_models(secs@), q as int)),
        None => None,
    }
}

fn sub_chars(cs: &Vec<char>, from: usize, to: usize) -> (r: Vec<char>)
    requires
        from <= to <= cs@.len(),
    ensures
        r@ == cs@.subrange(from as int, to as int),
{
    let mut r: Vec<char> = Vec::new();
    let mut i = from;
    while i < to
        invariant
            from <= i <= to <= cs@.len(),
            r@ == cs@.subrange(from as int, i as int),
        decreases to - i,
    {
        r.push(cs[i]);
        i = i + 1;
    }
    r
}

fn integer_word_exec(w: &Vec<char>) -> (r: bool)
    ensures
        r == is_integer_word(w@),
{
    let n = w.len();
    let sign: usize = if n > 0 && w[0] == '-' {
        1
    } else {
        0
    };
    n > sign && all_of_kind(w, sign, 1)
}

fn half_string() -> (r: String)
    ensures
        r@ == half_text(),
{
    let mut t = String::new();
    proof {
        reveal_strlit("0.5");
    }
    t.append("0.5");
    assert(t@ =~= half_text());
    t
}

fn range_exec(w: &Vec<char>) -> (r: Option<(i32, i32)>)
    ensures
        r == range_of(w@),
{
    let n = w.len();
    let mut k: usize = 0;
    while k < n && w[k] != '.'
        invariant
            n == w@.len(),
            k <= n,
            first_dot(w@, k as int) == first_dot(w@, 0),
        decreases n - k,
    {
        k = k + 1;
    }
    if !(k < n && k + 1 < n && w[k + 1] == '.') {
        return None;
    }
    let left = sub_chars(w, 0, k);
    let right = sub_chars(w, k + 2, n);
    if !(integer_word_exec(&left) && integer_word_exec(&right)) {
        return None;
    }
    assert(left@.subrange(0, left@.len() as int) =~= left@);
    assert(right@.subrange(0, right@.len() as int) =~= right@);
    match (parse_i32(&left, 0), parse_i32(&right, 0)) {
        (Ok(x), Ok(y)) => Some((x, y)),
        _ => None,
    }
}

fn integer_step(v: i32) -> (r: Step)
    ensures
        r.model() == integer_model(v as int),
{
    let mut t = String::new();
    append_int(&mut t, v);
    assert(t@ =~= int_text(v as int));
    Step::Single(Value::Integer(v), t)
}

fn parse_atom(cs: &Vec<char>, s: &str, p: usize) -> (r: Option<(Step, usize)>)
    requires
        cs@ == s@,
        p <= cs@.len(),
    ensures
        parsed(r) == spec_atom(cs@, p as int),
        r matches Some((_, e)) ==> e <= cs@.len(),
    decreases cs@.len() - p, 0int,
{
    if p >= cs.len() {
        return None;
    }
    let c = cs[p];
    if c == '[' || c == '<' {
        let close = if c == '[' {
            ']'
        } else {
            '>'
        };
        match parse_body(cs, s, p + 1, Some(close)) {
            Some((secs, q)) => match group_exec(&secs, c == '<') {
                Some(st) => Some((st, q + 1)),
                None => None,
            },
            None => None,
        }
    } else if c == '{' {
        match parse_body(cs, s, p + 1, Some('}')) {
            Some((secs, q)) => if q + 1 < cs.len() && cs[q + 1] == '%' && q > p {
                match parse_atom(cs, s, q + 2) {
                    Some((count, e)) => match polymeter_exec(&secs, Some(count)) {
                        Some(st) => Some((st, e)),
                        None => None,
                    },
                    None => None,
                }
            } else {
                match polymeter_exec(&secs, None) {
                    Some(st) => Some((st, q + 1)),
                    None => None,
                }
            },
            None => None,
        }
    } else if c == '~' {
        Some((rest_step(), p + 1))
    } else if c == '_' {
        if p + 1 < cs.len() && is_word_char_exec(cs[p + 1]) && cs[p + 1] != '_' {
            None
        } else {
            Some((hold_step(), p + 1))
        }
    } else if is_word_char_exec(c) {
        let e = word_end_exec(cs, p);
        let w = sub_chars(cs, p, e);
        let text = s.substring_char(p, e);
        match range_exec(&w) {
            Some((x, y)) => Some((Step::Range(x, y), e)),
            None => match word_value_exec(&w, text) {
                Some(v) => Some((Step::Single(v, text.to_owned()), e)),
                None => None,
            },
        }
    } else {
        None
    }
}

fn parse_body(cs: &Vec<char>, s: &str, p: usize, close: Option<char>) -> (r: Option<
    (Vec<Vec<Elem>>, usize),
>)
    requires
        cs@ == s@,
        p <= cs@.len(),
    ensures
        parsed_body(r) == spec_body(cs@, p as int, close),
        r matches Some((_, q)) ==> q <= cs@.len() && (close is Some ==> q < cs@.len()),
    decreases cs@.len() - p, 3int,
{
    let q = skip_space_exec(cs, p);
    if q >= cs.len() {
        if close.is_none() {
            let mut v: Vec<Vec<Elem>> = Vec::new();
            v.push(Vec::new());
            assert(elem_models(v@[0]@) =~= Seq::<ElemModel>::empty());
            assert(section_models(v@) =~= seq![Seq::<ElemModel>::empty()]);
            return Some((v, q));
        } else {
            return None;
        }
    }
    let c = cs[q];
    let closing = match close {
        Some(cc) => cc == c,
        None => false,
    };
    if closing {
        let mut v: Vec<Vec<Elem>> = Vec::new();
        v.push(Vec::new());
        assert(elem_models(v@[0]@) =~= Seq::<ElemModel>::empty());
        assert(section_models(v@) =~= seq![Seq::<ElemModel>::empty()]);
        return Some((v, q));
    }
    if c == ',' {
        match parse_body(cs, s, q + 1, close) {
            Some((mut secs, e)) => {
                let ghost old_m = section_models(secs@);
                let empty: Vec<Elem> = Vec::new();
                assert(elem_models(empty@) =~= Seq::<ElemModel>::empty());
                secs.insert(0, empty);
                assert(section_models(secs@) =~= seq![Seq::<ElemModel>::empty()] + old_m);
                Some((secs, e))
            },
            None => None,
        }
    } else {
        let el: Option<(Elem, usize)> = if c == '|' {
            Some((Elem::Choice, q + 1))
        } else if c == '!' {
            Some((Elem::Step(Step::Repeat), q + 1))
        } else if c == '.' && !(q + 1 < cs.len() && is_word_char_exec(cs[q + 1])) {
            Some((Elem::Split, q + 1))
        } else {
            match parse_step(cs, s, q) {
                Some((st, e)) => Some((Elem::Step(st), e)),
                None => None,
            }
        };
        match el {
            Some((el, e)) => if q < e && e <= cs.len() {
                match parse_body(cs, s, e, close) {
                    Some((mut secs, f)) => if secs.len() > 0 {
                        let ghost old_m = section_models(secs@);
                        let ghost elm = el.model();
                        let mut first = secs.remove(0);
                        let ghost old_first = elem_models(first@);
                        first.insert(0, el);
                        assert(elem_models(first@) =~= seq![elm] + old_first);
                        secs.insert(0, first);
                        assert(section_models(secs@) =~= old_m.update(0, seq![elm] + old_m[0]));
                        Some((secs, f))
                    } else {
                        None
                    },
                    None => None,
                }
            } else {
                None
            },
            None => None,
        }
    }
}

fn parse_step(cs: &Vec<char>, s: &str, p: usize) -> (r: Option<(Step, usize)>)
    requires
        cs@ == s@,
        p <= cs@.len(),
    ensures
        parsed(r) == spec_step(cs@, p as int),
        r matches Some((_, e)) ==> e <= cs@.len(),
    decreases cs@.len() - p, 2int,
{
    match parse_atom(cs, s, p) {
        Some((a, e)) => if p < e && e <= cs.len() {
            parse_ops(cs, s, e, a)
        } else {
            None
        },
        None => None,
    }
}

fn parse_ops(cs: &Vec<char>, s: &str, p: usize, left: Step) -> (r: Option<(Step, usize)>)
    requires
        cs@ == s@,
        p <= cs@.len(),
    ensures
        parsed(r) == spec_ops(cs@, p as int, left.model()),
        r matches Some((_, e)) ==> e <= cs@.len(),
    decreases cs@.len() - p, 1int,
{
    if p >= cs.len() {
        return Some((left, p));
    }
    let c = cs[p];
    if c == ':' {
        let e = word_end_exec(cs, p + 1);
        if p + 1 < e && e < cs.len() && cs[e] == '=' {
            let w = sub_chars(cs, p + 1, e);
            let key: Option<Option<String>> = if w.len() == 1 && w[0] == '#' {
                assert(w@ =~= seq!['#']);
                Some(None)
            } else if w.len() > 0 && is_letter_exec(w[0]) && all_of_kind(&w, 1, 4) {
                Some(Some(s.substring_char(p + 1, e).to_owned()))
            } else {
                None
            };
            match key {
                Some(key) => {
                    assert(assign_key(cs@, p + 1) == Some((key_model(&key), e as int)));
                    return match parse_atom(cs, s, e + 1) {
                        Some((r, f)) => if p < f && f <= cs.len() {
                            let pat = assign_exec(&r, &key);
                            parse_ops(cs, s, f, Step::Target(Box::new(left), Box::new(pat)))
                        } else {
                            None
                        },
                        None => None,
                    };
                },
                None => {
                    assert(assign_key(cs@, p + 1) is None);
                },
            }
        }
    }
    if c == '*' || c == '/' || c == ':' {
        match parse_atom(cs, s, p + 1) {
            Some((r, e)) => if p < e && e <= cs.len() {
                let l = Box::new(left);
                let r = Box::new(r);
                let st = if c == '*' {
                    Step::Fast(l, r)
                } else if c == '/' {
                    Step::Slow(l, r)
                } else {
                    Step::Target(l, r)
                };
                parse_ops(cs, s, e, st)
            } else {
                None
            },
            None => None,
        }
    } else if c == '!' || c == '@' {
        let e = word_end_exec(cs, p + 1);
        let count: Option<Value> = if e > p + 1 {
            let w = sub_chars(cs, p + 1, e);
            if integer_word_exec(&w) {
                assert(w@.subrange(0, w@.len() as int) =~= w@);
                match parse_i32(&w, 0) {
                    Ok(v) => Some(Value::Integer(v)),
                    Err(_) => None,
                }
            } else {
                None
            }
        } else {
            Some(Value::Integer(2))
        };
        match count {
            Some(v) => {
                let l = Box::new(left);
                let st = if c == '!' {
                    Step::Replicate(l, v)
                } else {
                    Step::Weight(l, v)
                };
                parse_ops(cs, s, e, st)
            },
            None => None,
        }
    } else if c == '?' {
        let e = word_end_exec(cs, p + 1);
        let chance: Option<Value> = if e > p + 1 {
            let w = sub_chars(cs, p + 1, e);
            match word_value_exec(&w, s.substring_char(p + 1, e)) {
                Some(Value::Integer(v)) => Some(Value::Integer(v)),
                Some(Value::Float(t)) => Some(Value::Float(t)),
                _ => None,
            }
        } else {
            Some(Value::Float(half_string()))
        };
        match chance {
            Some(v) => parse_ops(cs, s, e, Step::Degrade(Box::new(left), v)),
            None => None,
        }
    } else if c == '(' {
        parse_euclid(cs, s, p, left)
    } else {
        Some((left, p))
    }
}

#[verifier::rlimit(50)]
fn parse_euclid(cs: &Vec<char>, s: &str, p: usize, left: Step) -> (r: Option<(Step, usize)>)
    requires
        cs@ == s@,
        p < cs@.len(),
    ensures
        parsed(r) == spec_euclid(cs@, p as int, left.model()),
        r matches Some((_, e)) ==> e <= cs@.len(),
    decreases cs@.len() - p, 0int,
{
    let _len = cs.len();
    let q1 = skip_space_exec(cs, p + 1);
    let (a, e1) = match parse_step(cs, s, q1) {
        Some(x) => x,
        None => {
            return None;
        },
    };
    let q2 = skip_space_exec(cs, e1);
    if !(e1 > p && q2 > p && q2 < cs.len() && cs[q2] == ',') {
        return None;
    }
    let q3 = skip_space_exec(cs, q2 + 1);
    let (b, e3) = match parse_step(cs, s, q3) {
        Some(x) => x,
        None => {
            return None;
        },
    };
    let q4 = skip_space_exec(cs, e3);
    if e3 > p && q4 > p && q4 < cs.len() && cs[q4] == ')' {
        let st = Step::Bjorklund(Box::new(left), Box::new(a), Box::new(b), None);
        parse_ops(cs, s, q4 + 1, st)
    } else if e3 > p && q4 > p && q4 < cs.len() && cs[q4] == ',' {
        let q5 = skip_space_exec(cs, q4 + 1);
        let (c, e5) = match parse_step(cs, s, q5) {
            Some(x) => x,
            None => {
                return None;
            },
        };
        let q6 = skip_space_exec(cs, e5);
        if e5 > p && q6 > p && q6 < cs.len() && cs[q6] == ')' {
            let st = Step::Bjorklund(Box::new(left), Box::new(a), Box::new(b), Some(Box::new(c)));
            parse_ops(cs, s, q6 + 1, st)
        } else {
            None
        }
    } else {
        None
    }
}

/// Parses a mini-notation text into its tree of steps.
///
/// Returns the error "invalid mini-notation" for a text that the grammar of this module
/// refuses.
pub fn parse_cycle(input: &str) -> (r: Result<Step, String>)
    ensures
        r is Ok <==> spec_accepts(input@),
        match r {
            Ok(st) => spec_parse(input@) == Some(st.model()),
            Err(e) => e@ == "invalid mini-notation"@,
        },
{
    let cs = chars_of(input);
    let parsed = match parse_body(&cs, input, 0, None) {
        Some((secs, _)) => group_exec(&secs, false),
        None => None,
    };
    match parsed {
        Some(st) => Ok(st),
        None => Err("invalid mini-notation".to_string()),
    }
}

// ---------------------------------------------------------------------------------------------
// Cycles

/// The event limit that a new cycle has.
pub const EVENT_LIMIT_DEFAULT: usize = 0x1000;

/// Whether a text holds a character that may make a cycle's events change from cycle to
/// cycle: `<`, `{`, `|`, `?`, `/` or `*`.
pub open spec fn has_stateful_char(s: Seq<char>) -> bool {
    exists|i: int|
        0 <= i < s.len() && (s[i] == '<' || s[i] == '{' || s[i] == '|' || s[i] == '?' || s[i]
            == '/' || s[i] == '*')
}

/// A seed from the thread's generator of the crate `rand` (`rand::random`), which the
/// operating system's entropy seeds. Nothing is stated of its value.
#[verifier::external_body]
fn entropy_seed() -> u64 {
    rand::random::<u64>()
}

/// A parsed mini-notation text with its event limit, the seed of its random choices and the
/// number of the cycle that plays next.
pub struct Cycle {
    root: Step,
    event_limit: usize,
    input: String,
    seed: u64,
    iteration: u32,
}

impl Cycle {
    /// The step tree of the text.
    pub closed spec fn root_view(&self) -> StepModel {
        self.root.model()
    }

    /// The event limit.
    pub closed spec fn event_limit_view(&self) -> int {
        self.event_limit as int
    }

    /// The text the cycle was parsed from.
    pub closed spec fn input_view(&self) -> Seq<char> {
        self.input@
    }

    /// The seed from which the random choices of each cycle are drawn.
    pub closed spec fn seed_view(&self) -> u64 {
        self.seed
    }

    /// The number of the cycle that plays next.
    pub closed spec fn iteration_view(&self) -> int {
        self.iteration as int
    }

    /// What the next `generate` gives: the events of the cycle that plays next, drawn from
    /// the seed plus the cycle's number (wrapping around), see `spec_seeded_output`.
    pub open spec fn next_output(&self) -> Result<Seq<Seq<EventModel>>, OutputError> {
        spec_seeded_output(
            self.root_view(),
            self.iteration_view(),
            ((self.seed_view() as int + self.iteration_view()) % 0x1_0000_0000_0000_0000) as u64,
            self.event_limit_view(),
            64,
        )
    }

    /// Parses a mini-notation text into a cycle at cycle number 0 with the default event
    /// limit and a seed from the operating system's entropy; fails with "invalid
    /// mini-notation" on a text that the grammar refuses.
    pub fn from(input: &str) -> (r: Result<Cycle, String>)
        ensures
            r is Ok <==> spec_accepts(input@),
            match r {
                Ok(c) => spec_parse(input@) == Some(c.root_view()) && c.input_view() == input@
                    && c.event_limit_view() == EVENT_LIMIT_DEFAULT && c.iteration_view() == 0,
                Err(e) => e@ == "invalid mini-notation"@,
            },
    {
        match parse_cycle(input) {
            Ok(root) => Ok(
                Cycle {
                    root,
                    event_limit: EVENT_LIMIT_DEFAULT,
                    input: input.to_owned(),
                    seed: entropy_seed(),
                    iteration: 0,
                },
            ),
            Err(e) => Err(e),
        }
    }

    /// The cycle with a seed of its own: the same seed gives the same events in each cycle.
    pub fn with_seed(self, seed: u64) -> (r: Cycle)
        ensures
            r.seed_view() == seed,
            r.event_limit_view() == self.event_limit_view(),
            r.root_view() == self.root_view(),
            r.input_view() == self.input_view(),
            r.iteration_view() == self.iteration_view(),
    {
        Cycle { seed, ..self }
    }

    /// The cycle with another event limit.
    pub fn with_event_limit(self, event_limit: usize) -> (r: Cycle)
        ensures
            r.event_limit_view() == event_limit,
            r.seed_view() == self.seed_view(),
            r.root_view() == self.root_view(),
            r.input_view() == self.input_view(),
            r.iteration_view() == self.iteration_view(),
    {
        Cycle { event_limit, ..self }
    }

    /// Whether the cycle's text holds a character that may make its events change from
    /// cycle to cycle.
    pub fn is_stateful(&self) -> (r: bool)
        ensures
            r == has_stateful_char(self.input_view()),
    {
        let cs = chars_of(self.input.as_str());
        let mut i: usize = 0;
        while i < cs.len()
            invariant
                cs@ == self.input@,
                i <= cs@.len(),
                forall|j: int|
                    0 <= j < i ==> !(cs@[j] == '<' || cs@[j] == '{' || cs@[j] == '|' || cs@[j]
                        == '?' || cs@[j] == '/' || cs@[j] == '*'),
            decreases cs@.len() - i,
        {
            let c = cs[i];
            if c == '<' || c == '{' || c == '|' || c == '?' || c == '/' || c == '*' {
                return true;
            }
            i = i + 1;
        }
        false
    }

    /// The events of the cycle that plays next, see `next_output`; on success the next
    /// cycle number follows.
    pub fn generate(&mut self) -> (r: Result<Vec<Vec<Event>>, OutputError>)
        requires
            old(self).iteration_view() < u32::MAX,
        ensures
            final(self).root_view() == old(self).root_view(),
            final(self).input_view() == old(self).input_view(),
            final(self).event_limit_view() == old(self).event_limit_view(),
            final(self).seed_view() == old(self).seed_view(),
            match r {
                Ok(chs) => old(self).next_output() == Ok::<Seq<Seq<EventModel>>, OutputError>(
                    channel_models(chs@),
                ) && final(self).iteration_view() == old(self).iteration_view() + 1,
                Err(e) => old(self).next_output() == Err::<Seq<Seq<EventModel>>, OutputError>(e)
                    && final(self).iteration_view() == old(self).iteration_view(),
            },
    {
        let seed = self.seed.wrapping_add(self.iteration as u64);
        let r = seeded_output(&self.root, self.iteration, seed, self.event_limit);
        if r.is_ok() {
            self.iteration = self.iteration + 1;
        }
        r
    }

    /// Moves on to the next cycle without playing one.
    pub fn advance(&mut self)
        requires
            old(self).iteration_view() < u32::MAX,
        ensures
            final(self).iteration_view() == old(self).iteration_view() + 1,
            final(self).root_view() == old(self).root_view(),
            final(self).input_view() == old(self).input_view(),
            final(self).event_limit_view() == old(self).event_limit_view(),
            final(self).seed_view() == old(self).seed_view(),
    {
        self.iteration = self.iteration + 1;
    }

    /// Starts over at cycle number 0.
    pub fn reset(&mut self)
        ensures
            final(self).iteration_view() == 0,
            final(self).root_view() == old(self).root_view(),
            final(self).input_view() == old(self).input_view(),
            final(self).event_limit_view() == old(self).event_limit_view(),
            final(self).seed_view() == old(self).seed_view(),
    {
        self.iteration = 0;
    }
}

/// Two cycles of the same text, event limit, seed and cycle number give the same events
/// next: a seeded cycle is reproducible, and moving on by `advance` leaves a cycle where a
/// discarded `generate` would.
pub proof fn lemma_same_seed_same_events(a: Cycle, b: Cycle)
    requires
        a.root_view() == b.root_view(),
        a.event_limit_view() == b.event_limit_view(),
        a.seed_view() == b.seed_view(),
        a.iteration_view() == b.iteration_view(),
    ensures
        a.next_output() == b.next_output(),
{
}

} // verus!
