//! Events of a cycle: what a step tree of the mini-notation plays in one cycle.
//!
//! A step's events share its span evenly among the steps of a subdivision or a euclidean
//! rhythm, give it whole to the steps of a stack (each on channels of its own) and to the one
//! step of an alternation or a choice that plays in this cycle. Spans are fractions of the
//! cycle, each kept as a numerator over a denominator. Choices pick by the draws handed in,
//! in the order in which they are met. A step sped up by an integer factor `n` plays `n` of
//! its cycles in the step's span. Otherwise a step played `p/q` times as fast (a slowed
//! down step, a factor with a decimal point, a polymeter of `q` steps counted `p` per
//! cycle) plays the window `[c*p/q, (c+1)*p/q)` of its cycles in cycle `c`, stretched over
//! the span: the events that start in the window (or, on either side of a target expression
//! whose right side is several steps, those that overlap it), cut to the window. A factor or
//! count of zero or less, or a single step without a number, plays nothing. A factor or count
//! made of several steps plays, for each of their events, the step with that event's factor,
//! cut to the event's span. A target expression adds the targets of its right side to the
//! events of its left side that they overlap, once for each channel of the right side. A
//! degrade expression turns each of its events into a rest when its chance is below the next
//! draw, read as the fraction `draw / 2^64`. Number texts of more than 19 characters, and
//! windows whose `p` or `q` exceeds `2^31`, are not evaluated here.

use vstd::prelude::*;

use rand_xoshiro::rand_core::{RngCore, SeedableRng};
use rand_xoshiro::Xoshiro256PlusPlus;

use crate::pattern::euclidean::{euclidean, spec_euclidean};
use crate::text::{digit_value, is_digit};
use crate::tidal::cycle::{
    Step, StepModel, Target, TargetModel, Value, ValueModel, child_models, same_key,
};

verus! {

/// Why a cycle's events could not be given.
#[derive(Clone, Copy, Debug, PartialEq, Eq, Structural)]
pub enum OutputError {
    /// More single steps played than the event limit allows.
    EventLimit,
    /// A choice was met after all draws were used.
    MissingDraw,
    /// A span's denominator left the `u64` range.
    Overflow,
    /// A number text of more than 19 characters, a factor or count whose ratio exceeds
    /// `2^31`, or a euclidean rotation of `i32::MIN` where the pattern is rotated.
    Unsupported,
}

/// What the targets of a vector hold, in order.
pub open spec fn target_models(v: Seq<Target>) -> Seq<TargetModel> {
    Seq::new(v.len(), |i: int| v[i].model())
}

/// An event of a cycle: a value with its text, its targets and the span `[start, end)` of
/// the cycle that it takes, each bound a numerator over a denominator.
pub struct Event {
    pub value: Value,
    pub text: String,
    pub targets: Vec<Target>,
    pub start: (u64, u64),
    pub end: (u64, u64),
}

/// What an `Event` holds.
pub struct EventModel {
    pub value: ValueModel,
    pub text: Seq<char>,
    pub targets: Seq<TargetModel>,
    pub start: (int, int),
    pub end: (int, int),
}

impl Event {
    /// The event's value.
    pub fn value(&self) -> (r: &Value)
        ensures
            r.model() == self.value.model(),
    {
        &self.value
    }

    /// The text the event's value was read from.
    pub fn string(&self) -> (r: &str)
        ensures
            r@ == self.text@,
    {
        self.text.as_str()
    }

    /// The span of the cycle that the event takes.
    pub fn span(&self) -> (r: Span)
        ensures
            r.start == self.start,
            r.end == self.end,
    {
        Span { start: self.start, end: self.end }
    }

    /// The length of the event's span, see `Span::length`.
    pub fn length(&self) -> (r: (u128, u128))
        ensures
            r == span_length(self.start, self.end),
    {
        self.span().length()
    }

    /// The event's targets.
    pub fn targets(&self) -> (r: &[Target])
        ensures
            r@ == self.targets@,
    {
        self.targets.as_slice()
    }

    pub open spec fn model(&self) -> EventModel {
        EventModel {
            value: self.value.model(),
            text: self.text@,
            targets: target_models(self.targets@),
            start: (self.start.0 as int, self.start.1 as int),
            end: (self.end.0 as int, self.end.1 as int),
        }
    }
}

/// A span `[start, end)` of a cycle, each bound a numerator over a denominator.
pub struct Span {
    pub start: (u64, u64),
    pub end: (u64, u64),
}

/// The length `end - start` of a span as a numerator over the product of the denominators;
/// a numerator of 0 where the span ends before it starts.
pub open spec fn span_length(start: (u64, u64), end: (u64, u64)) -> (u128, u128) {
    let n = end.0 * start.1 - start.0 * end.1;
    ((if n > 0 {
        n
    } else {
        0
    }) as u128, (start.1 * end.1) as u128)
}

impl Span {
    /// The span `[start, end)`.
    pub fn new(start: (u64, u64), end: (u64, u64)) -> (r: Span)
        ensures
            r.start == start,
            r.end == end,
    {
        Span { start, end }
    }

    /// The span's start.
    pub fn start(&self) -> (r: (u64, u64))
        ensures
            r == self.start,
    {
        self.start
    }

    /// The span's end.
    pub fn end(&self) -> (r: (u64, u64))
        ensures
            r == self.end,
    {
        self.end
    }

    /// The span's length, see `span_length`.
    pub fn length(&self) -> (r: (u128, u128))
        ensures
            r == span_length(self.start, self.end),
    {
        proof {
            lemma_product_fits(self.end.0 as int, self.start.1 as int);
            lemma_product_fits(self.start.0 as int, self.end.1 as int);
            lemma_product_fits(self.start.1 as int, self.end.1 as int);
        }
        let a = (self.end.0 as u128) * (self.start.1 as u128);
        let b = (self.start.0 as u128) * (self.end.1 as u128);
        let n = if a > b {
            a - b
        } else {
            0
        };
        (n, (self.start.1 as u128) * (self.end.1 as u128))
    }

    /// Whether `other` starts within this span: at or after its start and before its end.
    pub fn includes(&self, other: &Span) -> (r: bool)
        ensures
            r == (!lt_frac(
                (other.start.0 as int, other.start.1 as int),
                (self.start.0 as int, self.start.1 as int),
            ) && lt_frac(
                (other.start.0 as int, other.start.1 as int),
                (self.end.0 as int, self.end.1 as int),
            )),
    {
        !lt_frac_exec(other.start, self.start) && lt_frac_exec(other.start, self.end)
    }
}

/// What the events of a vector hold, in order.
pub open spec fn event_models(v: Seq<Event>) -> Seq<EventModel> {
    Seq::new(v.len(), |i: int| v[i].model())
}

/// What the channels of a vector hold, in order.
pub open spec fn channel_models(v: Seq<Vec<Event>>) -> Seq<Seq<EventModel>> {
    Seq::new(v.len(), |i: int| event_models(v[i]@))
}

/// The channels `r` with the channels `c` added after their events, `c`'s first channel on
/// `r`'s channel `offset`.
pub open spec fn add_channels(
    r: Seq<Seq<EventModel>>,
    c: Seq<Seq<EventModel>>,
    offset: int,
) -> Seq<Seq<EventModel>> {
    let n = if r.len() >= offset + c.len() {
        r.len() as int
    } else {
        offset + c.len()
    };
    Seq::new(
        n as nat,
        |m: int|
            (if m < r.len() {
                r[m]
            } else {
                Seq::empty()
            }) + (if offset <= m < offset + c.len() {
                c[m - offset]
            } else {
                Seq::empty()
            }),
    )
}

/// The target that a value gives on the right side of a target expression: none for a
/// rest or a hold, the target itself for a target, an index for an integer, a name for a
/// name, and the value's text as a name for any other value.
pub open spec fn value_target(v: ValueModel, text: Seq<char>) -> Option<TargetModel> {
    match v {
        ValueModel::Rest => None,
        ValueModel::Hold => None,
        ValueModel::Integer(i) => Some(TargetModel::Index(i)),
        ValueModel::Target(t) => Some(t),
        ValueModel::Name(n) => Some(TargetModel::Named(n, None)),
        _ => Some(TargetModel::Named(text, None)),
    }
}

/// The target that a single step gives as the right side of a target expression; `None`
/// for a step that is no single.
pub open spec fn target_of(st: StepModel) -> Option<Option<TargetModel>> {
    match st {
        StepModel::Single(v, text) => Some(value_target(v, text)),
        _ => None,
    }
}

/// The targets with `t` added, unless one of them has its key.
pub open spec fn add_target(ts: Seq<TargetModel>, t: TargetModel) -> Seq<TargetModel> {
    if exists|i: int| 0 <= i < ts.len() && same_key(#[trigger] ts[i], t) {
        ts
    } else {
        ts.push(t)
    }
}

/// The channels with the target `t` added to each event.
pub open spec fn targeted(chs: Seq<Seq<EventModel>>, t: TargetModel) -> Seq<Seq<EventModel>> {
    Seq::new(
        chs.len(),
        |i: int|
            Seq::new(
                chs[i].len(),
                |k: int|
                    EventModel {
                        value: chs[i][k].value,
                        text: chs[i][k].text,
                        targets: add_target(chs[i][k].targets, t),
                        start: chs[i][k].start,
                        end: chs[i][k].end,
                    },
            ),
    )
}

/// Whether the spans of two events overlap: each starts before the other ends, the
/// fractions compared by multiplying out their (positive) denominators.
pub open spec fn overlaps(e: EventModel, t: EventModel) -> bool {
    &&& e.start.0 * t.end.1 < t.end.0 * e.start.1
    &&& t.start.0 * e.end.1 < e.end.0 * t.start.1
}

/// The targets `ts` with each of `us` added in turn, see `add_target`.
pub open spec fn add_targets(ts: Seq<TargetModel>, us: Seq<TargetModel>) -> Seq<TargetModel>
    decreases us.len(),
{
    if us.len() == 0 {
        ts
    } else {
        add_target(add_targets(ts, us.drop_last()), us.last())
    }
}

/// The event `e` after the target event `te` of a target expression's right side: when
/// their spans overlap, the target that `te`'s value gives and then each of `te`'s own
/// targets are added to `e`'s targets.
pub open spec fn target_event(e: EventModel, te: EventModel) -> EventModel {
    if overlaps(e, te) {
        EventModel {
            value: e.value,
            text: e.text,
            targets: add_targets(
                match value_target(te.value, te.text) {
                    Some(t) => add_target(e.targets, t),
                    None => e.targets,
                },
                te.targets,
            ),
            start: e.start,
            end: e.end,
        }
    } else {
        e
    }
}

/// The event `e` after each of the target events `tc`, in order.
pub open spec fn targets_from(e: EventModel, tc: Seq<EventModel>) -> EventModel
    decreases tc.len(),
{
    if tc.len() == 0 {
        e
    } else {
        target_event(targets_from(e, tc.drop_last()), tc.last())
    }
}

/// The events of a channel, each after the target events `tc`.
pub open spec fn apply_targets(l: Seq<EventModel>, tc: Seq<EventModel>) -> Seq<EventModel> {
    Seq::new(l.len(), |i: int| targets_from(l[i], tc))
}

/// The channels of a target expression whose right side is several steps: for each channel
/// of the right side in turn, each channel of the left side after that channel's events.
pub open spec fn cross_targets(
    ls: Seq<Seq<EventModel>>,
    rs: Seq<Seq<EventModel>>,
) -> Seq<Seq<EventModel>>
    decreases rs.len(),
{
    if rs.len() == 0 {
        Seq::empty()
    } else {
        cross_targets(ls, rs.drop_last()) + Seq::new(
            ls.len(),
            |i: int| apply_targets(ls[i], rs.last()),
        )
    }
}

/// An event keeps its value, text and span after any target events; only targets are
/// added.
proof fn lemma_targets_from_keep(e: EventModel, tc: Seq<EventModel>)
    ensures
        targets_from(e, tc).value == e.value,
        targets_from(e, tc).text == e.text,
        targets_from(e, tc).start == e.start,
        targets_from(e, tc).end == e.end,
    decreases tc.len(),
{
    if tc.len() > 0 {
        lemma_targets_from_keep(e, tc.drop_last());
    }
}

/// A target expression keeps the structure of its left side: each channel of the left side
/// comes out once for each channel of the right side, its events in order with their
/// values, texts and spans, only their targets added.
pub proof fn lemma_targets_keep_left_side(
    ls: Seq<Seq<EventModel>>,
    rs: Seq<Seq<EventModel>>,
    k: int,
    m: int,
)
    requires
        0 <= k < rs.len(),
        0 <= m < ls.len(),
    ensures
        cross_targets(ls, rs).len() == rs.len() * ls.len(),
        cross_targets(ls, rs)[k * ls.len() + m].len() == ls[m].len(),
        forall|i: int|
            0 <= i < ls[m].len() ==> {
                let e = #[trigger] cross_targets(ls, rs)[k * ls.len() + m][i];
                &&& e.value == ls[m][i].value
                &&& e.text == ls[m][i].text
                &&& e.start == ls[m][i].start
                &&& e.end == ls[m][i].end
            },
    decreases rs.len(),
{
    let n = ls.len() as int;
    let prev = cross_targets(ls, rs.drop_last());
    if k < rs.len() - 1 {
        lemma_targets_keep_left_side(ls, rs.drop_last(), k, m);
        assert(k * n + m < (rs.len() - 1) * n) by (nonlinear_arith)
            requires
                0 <= k < rs.len() - 1,
                0 <= m < n,
        ;
        assert(cross_targets(ls, rs)[k * n + m] == prev[k * n + m]);
    } else {
        if rs.len() > 1 {
            lemma_targets_keep_left_side(ls, rs.drop_last(), 0, m);
        }
        assert(prev.len() == (rs.len() - 1) * n) by {
            if rs.len() == 1 {
                assert(rs.drop_last().len() == 0);
            }
        }
        assert(k * n + m == prev.len() + m) by (nonlinear_arith)
            requires
                k == rs.len() - 1,
                prev.len() == (rs.len() - 1) * n,
        ;
        assert(cross_targets(ls, rs)[k * n + m] == apply_targets(ls[m], rs.last()));
        assert forall|i: int| 0 <= i < ls[m].len() implies {
            let e = #[trigger] cross_targets(ls, rs)[k * n + m][i];
            &&& e.value == ls[m][i].value
            &&& e.text == ls[m][i].text
            &&& e.start == ls[m][i].start
            &&& e.end == ls[m][i].end
        } by {
            lemma_targets_from_keep(ls[m][i], rs.last());
        }
    }
    assert(cross_targets(ls, rs).len() == rs.len() * n) by (nonlinear_arith)
        requires
            cross_targets(ls, rs).len() == prev.len() + n,
            prev.len() == (rs.len() - 1) * n,
    {
    }
}

/// The channels with holds and then rests merged on each.
pub open spec fn merged_channels(chs: Seq<Seq<EventModel>>) -> Seq<Seq<EventModel>> {
    Seq::new(chs.len(), |i: int| merge_rests(merge_holds(chs[i])))
}

/// The digits of a number's text read as one decimal number, the `.` skipped: "1.25"
/// gives 125.
pub open spec fn digits_value(w: Seq<char>) -> int
    decreases w.len(),
{
    if w.len() == 0 {
        0
    } else if w.last() == '.' {
        digits_value(w.drop_last())
    } else {
        digits_value(w.drop_last()) * 10 + digit_value(w.last())
    }
}

/// The number of characters after the last `.` of a text.
pub open spec fn fraction_len(w: Seq<char>) -> nat
    decreases w.len(),
{
    if w.len() == 0 || w.last() == '.' {
        0
    } else {
        fraction_len(w.drop_last()) + 1
    }
}

/// Ten to the power `k`.
pub open spec fn pow10(k: nat) -> int
    decreases k,
{
    if k == 0 {
        1
    } else {
        10 * pow10((k - 1) as nat)
    }
}

/// What a degrade expression's chance value gives: `Ok(None)` for a value without a number
/// (the events stay as they are), `Ok(Some((n, d)))` for the chance `n/d` that an event
/// stays, an integer counting as percent and every chance limited to 0..=1, a pitch's MIDI
/// note counting in 128ths; `Err` for a number text longer than 19 characters (or one that
/// is not made of digits and a `.`).
pub open spec fn chance_of(v: ValueModel) -> Result<Option<(int, int)>, ()> {
    match v {
        ValueModel::Integer(i) => Ok(
            Some(
                (
                    if i < 0 {
                        0
                    } else if i > 100 {
                        100
                    } else {
                        i as int
                    },
                    100,
                ),
            ),
        ),
        ValueModel::Float(w) => float_chance(w),
        ValueModel::Target(TargetModel::Index(i)) => Ok(
            Some(
                if i >= 1 {
                    (1, 1)
                } else {
                    (0, 1)
                },
            ),
        ),
        ValueModel::Target(TargetModel::Named(_, Some(w))) => float_chance(w),
        ValueModel::Pitch(n, o) => Ok(
            Some(
                (
                    if o * 12 + n < 127 {
                        o * 12 + n
                    } else {
                        127
                    },
                    128,
                ),
            ),
        ),
        ValueModel::Chord(n, o, _) => Ok(
            Some(
                (
                    if o * 12 + n < 127 {
                        o * 12 + n
                    } else {
                        127
                    },
                    128,
                ),
            ),
        ),
        _ => Ok(None),
    }
}

/// The chance that a number's text gives, limited to 0..=1: `(0, 1)` for a negative number,
/// else its digits over ten to the power of the number of digits after its `.`; `Err` for a
/// text longer than 19 characters or one not made of digits and a `.`.
pub open spec fn float_chance(w: Seq<char>) -> Result<Option<(int, int)>, ()> {
    if w.len() > 19 {
        Err(())
    } else if w.len() > 0 && w[0] == '-' {
        Ok(Some((0, 1)))
    } else if !(forall|i: int| 0 <= i < w.len() ==> is_digit(w[i]) || w[i] == '.') {
        Err(())
    } else if digits_value(w) > pow10(fraction_len(w)) {
        Ok(Some((1, 1)))
    } else {
        Ok(Some((digits_value(w), pow10(fraction_len(w)))))
    }
}

/// The text of a number with a decimal point that a value holds: a number's own, or a named
/// target's number.
pub open spec fn number_text(v: ValueModel) -> Option<Seq<char>> {
    match v {
        ValueModel::Float(w) => Some(w),
        ValueModel::Target(TargetModel::Named(_, Some(w))) => Some(w),
        _ => None,
    }
}

/// The event `e` after a draw `r` (the fraction `r / 2^64` of a cycle's random range): a
/// rest, with its text and targets kept, when the chance `n/d` is below the draw.
pub open spec fn degraded(e: EventModel, n: int, d: int, r: u64) -> EventModel {
    if n * 0x1_0000_0000_0000_0000 < (r as int) * d {
        EventModel {
            value: ValueModel::Rest,
            text: e.text,
            targets: e.targets,
            start: e.start,
            end: e.end,
        }
    } else {
        e
    }
}

/// The events of a channel from index `i` on, each degraded by the next draw, added to
/// `acc`, with the number of draws used; `None` when the draws run out.
pub open spec fn degrade_from(
    evs: Seq<EventModel>,
    i: int,
    n: int,
    d: int,
    draws: Seq<u64>,
    acc: Seq<EventModel>,
    used: int,
) -> Option<(Seq<EventModel>, int)>
    decreases evs.len() - i,
{
    if i < 0 || i >= evs.len() {
        Some((acc, used))
    } else if !(0 <= used < draws.len()) {
        None
    } else {
        degrade_from(evs, i + 1, n, d, draws, acc.push(degraded(evs[i], n, d, draws[used])), used + 1)
    }
}

/// The channels from index `k` on, each degraded event by event, added to `acc`, with the
/// number of draws used; `None` when the draws run out.
pub open spec fn degrade_channels(
    chs: Seq<Seq<EventModel>>,
    k: int,
    n: int,
    d: int,
    draws: Seq<u64>,
    acc: Seq<Seq<EventModel>>,
    used: int,
) -> Option<(Seq<Seq<EventModel>>, int)>
    decreases chs.len() - k,
{
    if k < 0 || k >= chs.len() {
        Some((acc, used))
    } else {
        match degrade_from(chs[k], 0, n, d, draws, Seq::empty(), used) {
            Some((evs, u)) => degrade_channels(chs, k + 1, n, d, draws, acc.push(evs), u),
            None => None,
        }
    }
}

/// The integer that the value of a single step gives, as the bound of a euclidean rhythm.
pub open spec fn step_integer(st: StepModel) -> Option<int> {
    match st {
        StepModel::Single(ValueModel::Integer(i), _) => Some(i as int),
        StepModel::Single(ValueModel::Pitch(n, o), _) => Some(
            if o * 12 + n < 127 {
                o * 12 + n
            } else {
                127
            },
        ),
        StepModel::Single(ValueModel::Chord(n, o, _), _) => Some(
            if o * 12 + n < 127 {
                o * 12 + n
            } else {
                127
            },
        ),
        StepModel::Single(ValueModel::Target(TargetModel::Index(i)), _) => Some(i as int),
        _ => None,
    }
}

/// The factor by which a single step speeds a step up: its integer, 0 for a value without
/// a number (a rest, a hold or a name); `None` for a number with a decimal point or a step
/// that is no single.
pub open spec fn fast_factor(st: StepModel) -> Option<int> {
    match st {
        StepModel::Single(ValueModel::Float(_), _) => None,
        StepModel::Single(ValueModel::Target(TargetModel::Named(_, Some(_))), _) => None,
        StepModel::Single(_, _) => Some(
            match step_integer(st) {
                Some(n) => n,
                None => 0,
            },
        ),
        _ => None,
    }
}

/// The ratio that a number's text gives as a factor: none (`(0, 1)`) for a negative number,
/// else `decimal_ratio`.
pub open spec fn text_ratio(w: Seq<char>) -> Option<(int, int)> {
    if w.len() > 0 && w[0] == '-' {
        Some((0, 1))
    } else {
        decimal_ratio(w)
    }
}

/// The count `p/r` that a polymeter's count step gives: the factor of `fast_factor` over 1,
/// or for a number with a decimal point its ratio (none for a negative number); `None` for
/// a number text of more than 19 characters or a step that is no single.
pub open spec fn count_ratio(st: StepModel) -> Option<(int, int)> {
    match fast_factor(st) {
        Some(n) => Some((n, 1)),
        None => match st {
            StepModel::Single(v, _) => match number_text(v) {
                Some(w) => text_ratio(w),
                None => None,
            },
            _ => None,
        },
    }
}

/// A span `[a/d, b/d)`: its `k`-th of `n` equal parts, over the denominator `d * n`.
pub open spec fn part_start(a: int, b: int, n: int, k: int) -> int {
    a * n + (b - a) * k
}

/// The rest event over the span `[a/d, b/d)`.
pub open spec fn rest_event(a: int, b: int, d: int) -> EventModel {
    EventModel {
        value: ValueModel::Rest,
        text: seq!['~'],
        targets: Seq::empty(),
        start: (a, d),
        end: (b, d),
    }
}

/// The result of an evaluation: the channels of events, the number of draws used and the
/// number of events counted so far.
pub type Played = Result<(Seq<Seq<EventModel>>, int, int), OutputError>;

/// The events of `step` in `cycle` over the span `[a/d, b/d)`, after `used` draws and
/// `count` events; `limit` is the event limit.
pub open spec fn play(
    step: StepModel,
    cycle: int,
    a: int,
    b: int,
    d: int,
    draws: Seq<u64>,
    limit: int,
    used: int,
    count: int,
    ov: bool,
) -> Played
    decreases step, 0int,
{
    match step {
        StepModel::Single(v, t) => if count + 1 > limit {
            Err(OutputError::EventLimit)
        } else {
            Ok(
                (
                    seq![
                        seq![
                            EventModel {
                                value: v,
                                text: t,
                                targets: Seq::empty(),
                                start: (a, d),
                                end: (b, d),
                            },
                        ],
                    ],
                    used,
                    count + 1,
                ),
            )
        },
        StepModel::Subdivision(ch) => if ch.len() == 0 {
            Ok((seq![seq![rest_event(a, b, d)]], used, count))
        } else if d * ch.len() > u64::MAX {
            Err(OutputError::Overflow)
        } else {
            play_parts(ch, 0, cycle, a, b, d, draws, limit, seq![Seq::empty()], used, count, ov)
        },
        StepModel::Stack(ch) => if ch.len() == 0 {
            Ok((seq![seq![rest_event(a, b, d)]], used, count))
        } else {
            play_stacked(ch, 0, cycle, a, b, d, draws, limit, Seq::empty(), used, count, ov)
        },
        StepModel::Alternating(ch) => if ch.len() == 0 {
            Ok((seq![seq![rest_event(a, b, d)]], used, count))
        } else {
            let k = cycle % (ch.len() as int);
            if 0 <= k < ch.len() {
                play(ch[k], cycle / (ch.len() as int), a, b, d, draws, limit, used, count, ov)
            } else {
                Err(OutputError::Unsupported)
            }
        },
        StepModel::Choices(ch) => if ch.len() == 0 {
            Ok((seq![seq![rest_event(a, b, d)]], used, count))
        } else if !(0 <= used < draws.len()) {
            Err(OutputError::MissingDraw)
        } else {
            let k = (draws[used] as int) % (ch.len() as int);
            if 0 <= k < ch.len() {
                play(ch[k], cycle, a, b, d, draws, limit, used + 1, count, ov)
            } else {
                Err(OutputError::Unsupported)
            }
        },
        StepModel::Bjorklund(l, s, p, r) => match (step_integer(*s), step_integer(*p)) {
            (Some(sv), Some(pv)) => {
                let pulses = if sv > 0 { sv } else { 0 };
                let steps = if pv > 0 { pv } else { 0 };
                let rot = match r {
                    Some(rs) => match step_integer(*rs) {
                        Some(x) => x,
                        None => 0,
                    },
                    None => 0,
                };
                if rot == i32::MIN && pulses < steps {
                    Err(OutputError::Unsupported)
                } else {
                    let pattern = spec_euclidean(pulses as u32, steps as u32, rot as i32);
                    if pattern.len() == 0 {
                        match play(*l, cycle, 0, 1, 1, draws, limit, used, count, ov) {
                            Ok((_, u, c)) => Ok((seq![Seq::empty()], u, c)),
                            Err(e) => Err(e),
                        }
                    } else if d * pattern.len() > u64::MAX {
                        Err(OutputError::Overflow)
                    } else {
                        match play(*l, cycle, 0, 1, 1, draws, limit, used, count, ov) {
                            Ok((_, u, c)) => match play_pulses(
                                *l,
                                pattern,
                                0,
                                cycle,
                                a,
                                b,
                                d,
                                draws,
                                limit,
                                used,
                                count,
                                seq![Seq::empty()],
                                ov,
                            ) {
                                Ok(chs) => Ok((chs, u, c)),
                                Err(e) => Err(e),
                            },
                            Err(e) => Err(e),
                        }
                    }
                }
            },
            _ => Ok((seq![Seq::empty()], used, count)),
        },
        StepModel::Fast(l, r) => match fast_factor(*r) {
            Some(n) => if n <= 0 {
                Ok((seq![Seq::empty()], used, count))
            } else if d * n > u64::MAX || cycle * n + n - 1 > u32::MAX {
                Err(OutputError::Overflow)
            } else {
                play_fast(*l, n, 0, cycle, a, b, d, draws, limit, seq![Seq::empty()], used, count, ov)
            },
            None => if *r is Single {
                decimal_speed(*l, *r, true, cycle, a, b, d, draws, limit, used, count, ov)
            } else {
                match play(*r, cycle, a, b, d, draws, limit, used, count, ov) {
                    Ok((rc, u, c)) => speed_items(
                        *l,
                        true,
                        tagged(merged_channels(rc)),
                        0,
                        cycle,
                        a,
                        b,
                        d,
                        draws,
                        limit,
                        empty_channels(rc.len()),
                        u,
                        c,
                        ov,
                    ),
                    Err(e) => Err(e),
                }
            },
        },
        StepModel::Degrade(l, v) => match chance_of(v) {
            Ok(None) => play(*l, cycle, a, b, d, draws, limit, used, count, ov),
            Ok(Some((n, dn))) => match play(*l, cycle, a, b, d, draws, limit, used, count, ov) {
                Ok((chs, u, c)) => match degrade_channels(chs, 0, n, dn, draws, Seq::empty(), u) {
                    Some((chs2, u2)) => Ok((chs2, u2, c)),
                    None => Err(OutputError::MissingDraw),
                },
                Err(e) => Err(e),
            },
            Err(_) => Err(OutputError::Unsupported),
        },
        StepModel::Target(l, r) => match target_of(*r) {
            Some(t) => match play(*l, cycle, a, b, d, draws, limit, used, count, ov) {
                Ok((chs, u, c)) => Ok(
                    (
                        match t {
                            Some(t) => targeted(chs, t),
                            None => chs,
                        },
                        u,
                        c,
                    ),
                ),
                Err(e) => Err(e),
            },
            None => match play(*l, cycle, a, b, d, draws, limit, used, count, true) {
                Ok((lc, u, c)) => match play(*r, cycle, a, b, d, draws, limit, u, c, true) {
                    Ok((rc, u2, c2)) => Ok(
                        (cross_targets(merged_channels(lc), merged_channels(rc)), u2, c2),
                    ),
                    Err(e) => Err(e),
                },
                Err(e) => Err(e),
            },
        },
        StepModel::Polymeter(ch, cnt) => match count_ratio(*cnt) {
            Some((p, r)) => play_counted(ch, p, r, cycle, a, b, d, draws, limit, used, count, ov),
            None => if *cnt is Single {
                Err(OutputError::Unsupported)
            } else {
                match play(*cnt, cycle, a, b, d, draws, limit, used, count, ov) {
                    Ok((rc, u, c)) => count_items(
                        ch,
                        tagged(merged_channels(rc)),
                        0,
                        cycle,
                        a,
                        b,
                        d,
                        draws,
                        limit,
                        empty_channels(rc.len()),
                        u,
                        c,
                        ov,
                    ),
                    Err(e) => Err(e),
                }
            },
        },
        StepModel::Slow(l, r) => match fast_factor(*r) {
            Some(n) => if n <= 0 {
                Ok((seq![Seq::empty()], used, count))
            } else {
                match play(*l, cycle / n, 0, 1, 1, draws, limit, used, count, ov) {
                    Ok((chs, u, c)) => match window_channels(chs, cycle / n, 1, n, cycle, a, b, d, ov) {
                        Some(w) => Ok((w, u, c)),
                        None => Err(OutputError::Overflow),
                    },
                    Err(e) => Err(e),
                }
            },
            None => if *r is Single {
                decimal_speed(*l, *r, false, cycle, a, b, d, draws, limit, used, count, ov)
            } else {
                match play(*r, cycle, a, b, d, draws, limit, used, count, ov) {
                    Ok((rc, u, c)) => speed_items(
                        *l,
                        false,
                        tagged(merged_channels(rc)),
                        0,
                        cycle,
                        a,
                        b,
                        d,
                        draws,
                        limit,
                        empty_channels(rc.len()),
                        u,
                        c,
                        ov,
                    ),
                    Err(e) => Err(e),
                }
            },
        },
        StepModel::Repeat => Ok((seq![seq![rest_event(a, b, d)]], used, count)),
        StepModel::Replicate(_, _) => Ok((seq![seq![rest_event(a, b, d)]], used, count)),
        StepModel::Weight(_, _) => Ok((seq![seq![rest_event(a, b, d)]], used, count)),
        StepModel::Range(_, _) => Ok((seq![seq![rest_event(a, b, d)]], used, count)),
        _ => Err(OutputError::Unsupported),
    }
}

/// `n` empty channels.
pub open spec fn empty_channels(n: nat) -> Seq<Seq<EventModel>> {
    Seq::new(n, |i: int| Seq::<EventModel>::empty())
}

/// The factor `p/q` that the value of an event on the right side of a speed expression
/// gives, as a single step with that value would, see `count_ratio`.
pub open spec fn value_ratio(v: ValueModel) -> Option<(int, int)> {
    count_ratio(StepModel::Single(v, Seq::empty()))
}

/// Whether the fraction `x` is below the fraction `y`, their (positive) denominators
/// multiplied out.
pub open spec fn lt_frac(x: (int, int), y: (int, int)) -> bool {
    x.0 * y.1 < y.0 * x.1
}

/// The event `e` cut to the span `[s, t)`: kept when it starts in the span, or with `ov`
/// when it overlaps the span; `None` when it is not kept.
pub open spec fn crop_event(e: EventModel, s: (int, int), t: (int, int), ov: bool) -> Option<
    EventModel,
> {
    let keep = if ov {
        lt_frac(e.start, t) && lt_frac(s, e.end)
    } else {
        !lt_frac(e.start, s) && lt_frac(e.start, t)
    };
    if keep {
        Some(
            EventModel {
                value: e.value,
                text: e.text,
                targets: e.targets,
                start: if lt_frac(e.start, s) {
                    s
                } else {
                    e.start
                },
                end: if lt_frac(t, e.end) {
                    t
                } else {
                    e.end
                },
            },
        )
    } else {
        None
    }
}

/// The events that the span `[s, t)` keeps, each cut to it, see `crop_event`.
pub open spec fn crop_events(evs: Seq<EventModel>, s: (int, int), t: (int, int), ov: bool) -> Seq<
    EventModel,
>
    decreases evs.len(),
{
    if evs.len() == 0 {
        Seq::empty()
    } else {
        let r = crop_events(evs.drop_last(), s, t, ov);
        match crop_event(evs.last(), s, t, ov) {
            Some(e) => r.push(e),
            None => r,
        }
    }
}

/// The channels with their events cut to the span `[s, t)`, see `crop_events`.
pub open spec fn crop_channels(
    chs: Seq<Seq<EventModel>>,
    s: (int, int),
    t: (int, int),
    ov: bool,
) -> Seq<Seq<EventModel>> {
    Seq::new(chs.len(), |i: int| crop_events(chs[i], s, t, ov))
}

/// The events of the channels, channel after channel, each with its channel's number.
pub open spec fn tagged(chs: Seq<Seq<EventModel>>) -> Seq<(int, EventModel)>
    decreases chs.len(),
{
    if chs.len() == 0 {
        Seq::empty()
    } else {
        tagged(chs.drop_last()) + Seq::new(
            chs.last().len(),
            |i: int| ((chs.len() - 1) as int, chs.last()[i]),
        )
    }
}

/// The events of a speed expression whose right side is several steps, from the right
/// side's event `i` on: for each event `e` of channel `k`, the events of `left` sped up
/// (`fast`) or slowed down by the factor of `e`'s value (none for a factor of zero or less),
/// cut to `e`'s span and added to the channels `acc` from channel `k` on.
pub open spec fn speed_items(
    left: StepModel,
    fast: bool,
    items: Seq<(int, EventModel)>,
    i: int,
    cycle: int,
    a: int,
    b: int,
    d: int,
    draws: Seq<u64>,
    limit: int,
    acc: Seq<Seq<EventModel>>,
    used: int,
    count: int,
    ov: bool,
) -> Played
    decreases left, 0x4_0000_0000 + items.len() - i,
{
    if i < 0 || i >= items.len() {
        Ok((acc, used, count))
    } else {
        let k = items[i].0;
        let e = items[i].1;
        let r = match value_ratio(e.value) {
            Some((p, q)) => if p <= 0 {
                Ok((seq![Seq::empty()], used, count))
            } else if fast {
                windowed(left, cycle, p, q, a, b, d, draws, limit, used, count, ov)
            } else {
                windowed(left, cycle, q, p, a, b, d, draws, limit, used, count, ov)
            },
            None => Err(OutputError::Unsupported),
        };
        match r {
            Ok((chs, u, c)) => if 0 <= k <= acc.len() {
                speed_items(
                    left,
                    fast,
                    items,
                    i + 1,
                    cycle,
                    a,
                    b,
                    d,
                    draws,
                    limit,
                    add_channels(acc, crop_channels(chs, e.start, e.end, ov), k),
                    u,
                    c,
                    ov,
                )
            } else {
                Err(OutputError::Unsupported)
            },
            Err(err) => Err(err),
        }
    }
}

/// The events of the polymeter steps `ch` counted `p/r` per cycle: none for a count of zero or
/// less, else the window of the steps' cycles that the count gives, see `play_cycles`.
pub open spec fn play_counted(
    ch: Seq<StepModel>,
    p: int,
    r: int,
    cycle: int,
    a: int,
    b: int,
    d: int,
    draws: Seq<u64>,
    limit: int,
    used: int,
    count: int,
    ov: bool,
) -> Played
    decreases ch, 0x2_0000_0000 + ch.len(),
{
    if p <= 0 {
        Ok((seq![Seq::empty()], used, count))
    } else if ch.len() == 0 || p > 0x8000_0000 || ch.len() * r > 0x8000_0000 {
        Err(OutputError::Unsupported)
    } else {
        let q = ch.len() * r;
        let first = (cycle * p) / q;
        let end = ((cycle + 1) * p + q - 1) / q;
        if !(0 <= first <= end <= 0x1_0000_0000) {
            Err(OutputError::Overflow)
        } else {
            play_cycles(
                ch,
                first,
                end,
                cycle,
                p,
                q,
                a,
                b,
                d,
                draws,
                limit,
                seq![Seq::empty()],
                used,
                count,
                ov,
            )
        }
    }
}

/// The events of a polymeter whose count is several steps, from the count's event `i` on:
/// for each event `e` of channel `k`, the polymeter's steps counted by `e`'s value (see
/// `play_counted`), cut to `e`'s span and added to the channels `acc` from channel `k` on.
pub open spec fn count_items(
    ch: Seq<StepModel>,
    items: Seq<(int, EventModel)>,
    i: int,
    cycle: int,
    a: int,
    b: int,
    d: int,
    draws: Seq<u64>,
    limit: int,
    acc: Seq<Seq<EventModel>>,
    used: int,
    count: int,
    ov: bool,
) -> Played
    decreases ch, 0x4_0000_0000 + ch.len() + items.len() - i,
{
    if i < 0 || i >= items.len() {
        Ok((acc, used, count))
    } else {
        let k = items[i].0;
        let e = items[i].1;
        let r = match value_ratio(e.value) {
            Some((p, r)) => play_counted(ch, p, r, cycle, a, b, d, draws, limit, used, count, ov),
            None => Err(OutputError::Unsupported),
        };
        match r {
            Ok((chs, u, c)) => if 0 <= k <= acc.len() {
                count_items(
                    ch,
                    items,
                    i + 1,
                    cycle,
                    a,
                    b,
                    d,
                    draws,
                    limit,
                    add_channels(acc, crop_channels(chs, e.start, e.end, ov), k),
                    u,
                    c,
                    ov,
                )
            } else {
                Err(OutputError::Unsupported)
            },
            Err(err) => Err(err),
        }
    }
}

/// The events of the parts `k..` of a subdivision of `[a/d, b/d)` into `ch.len()` parts,
/// added to the channels `acc`.
pub open spec fn play_parts(
    ch: Seq<StepModel>,
    k: int,
    cycle: int,
    a: int,
    b: int,
    d: int,
    draws: Seq<u64>,
    limit: int,
    acc: Seq<Seq<EventModel>>,
    used: int,
    count: int,
    ov: bool,
) -> Played
    decreases ch, ch.len() - k,
{
    if k < 0 || k >= ch.len() {
        Ok((acc, used, count))
    } else {
        let n = ch.len() as int;
        match play(
            ch[k],
            cycle,
            part_start(a, b, n, k),
            part_start(a, b, n, k + 1),
            d * n,
            draws,
            limit,
            used,
            count,
            ov,
        ) {
            Ok((c, u, e)) => play_parts(
                ch,
                k + 1,
                cycle,
                a,
                b,
                d,
                draws,
                limit,
                add_channels(acc, c, 0),
                u,
                e,
                ov,
            ),
            Err(err) => Err(err),
        }
    }
}

/// The events of the stacked steps `k..` over `[a/d, b/d)`, step `k` from channel `k` on,
/// added to the channels `acc`.
pub open spec fn play_stacked(
    ch: Seq<StepModel>,
    k: int,
    cycle: int,
    a: int,
    b: int,
    d: int,
    draws: Seq<u64>,
    limit: int,
    acc: Seq<Seq<EventModel>>,
    used: int,
    count: int,
    ov: bool,
) -> Played
    decreases ch, ch.len() - k,
{
    if k < 0 || k >= ch.len() {
        Ok((acc, used, count))
    } else {
        match play(ch[k], cycle, a, b, d, draws, limit, used, count, ov) {
            Ok((c, u, e)) => play_stacked(
                ch,
                k + 1,
                cycle,
                a,
                b,
                d,
                draws,
                limit,
                add_channels(acc, c, k),
                u,
                e,
                ov,
            ),
            Err(err) => Err(err),
        }
    }
}

/// Whether the event of cycle `j` that starts at `x/y` and ends at `x2/y2` is kept by the
/// window `[c*p/q, (c+1)*p/q)` of the cycles: with `ov` when it overlaps the window,
/// else when it starts in the window.
pub open spec fn window_keeps(
    x: int,
    y: int,
    x2: int,
    y2: int,
    j: int,
    p: int,
    q: int,
    c: int,
    ov: bool,
) -> bool {
    if ov {
        q * (j * y + x) < (c + 1) * p * y && c * p * y2 < q * (j * y2 + x2)
    } else {
        c * p * y <= q * (j * y + x) && q * (j * y + x) < (c + 1) * p * y
    }
}

/// The event `e` of cycle `j`, seen through the window `[c*p/q, (c+1)*p/q)` of the cycles
/// and stretched onto `[a/d, b/d)`: `Some(None)` when the window does not keep it (see
/// `window_keeps`), else the event cut to the window; `None` when a denominator leaves the
/// `u64` range (or a bound is no fraction of the cycle).
pub open spec fn window_one(
    e: EventModel,
    j: int,
    p: int,
    q: int,
    c: int,
    a: int,
    b: int,
    d: int,
    ov: bool,
) -> Option<Option<EventModel>> {
    let x = e.start.0;
    let y = e.start.1;
    let x2 = e.end.0;
    let y2 = e.end.1;
    let inside = c * p * y <= q * (j * y + x);
    if !(1 <= y && 1 <= y2 && 0 <= x && 0 <= x2) {
        None
    } else if !window_keeps(x, y, x2, y2, j, p, q, c, ov) {
        Some(None)
    } else if inside && d * p * y > u64::MAX {
        None
    } else {
        let start = if inside {
            (a * p * y + (b - a) * (q * (j * y + x) - c * p * y), d * p * y)
        } else {
            (a, d)
        };
        if q * (j * y2 + x2) >= (c + 1) * p * y2 {
            Some(
                Some(
                    EventModel {
                        value: e.value,
                        text: e.text,
                        targets: e.targets,
                        start,
                        end: (b, d),
                    },
                ),
            )
        } else if q * (j * y2 + x2) < c * p * y2 || d * p * y2 > u64::MAX {
            None
        } else {
            Some(
                Some(
                    EventModel {
                        value: e.value,
                        text: e.text,
                        targets: e.targets,
                        start,
                        end: (a * p * y2 + (b - a) * (q * (j * y2 + x2) - c * p * y2), d * p * y2),
                    },
                ),
            )
        }
    }
}

/// The events of cycle `j` seen through the window `[c*p/q, (c+1)*p/q)` of the cycles and
/// stretched onto `[a/d, b/d)`, in order; `None` when a denominator leaves the `u64` range.
pub open spec fn window_all(
    evs: Seq<EventModel>,
    j: int,
    p: int,
    q: int,
    c: int,
    a: int,
    b: int,
    d: int,
    ov: bool,
) -> Option<Seq<EventModel>>
    decreases evs.len(),
{
    if evs.len() == 0 {
        Some(Seq::empty())
    } else {
        match window_all(evs.drop_last(), j, p, q, c, a, b, d, ov) {
            Some(r) => match window_one(evs.last(), j, p, q, c, a, b, d, ov) {
                Some(Some(ev)) => Some(r.push(ev)),
                Some(None) => Some(r),
                None => None,
            },
            None => None,
        }
    }
}

/// The channels `chs` of cycle `j`, each seen through the window `[c*p/q, (c+1)*p/q)` of the
/// cycles and stretched onto `[a/d, b/d)`, channel by channel; `None` when a denominator
/// leaves the `u64` range.
pub open spec fn window_channels(
    chs: Seq<Seq<EventModel>>,
    j: int,
    p: int,
    q: int,
    c: int,
    a: int,
    b: int,
    d: int,
    ov: bool,
) -> Option<Seq<Seq<EventModel>>>
    decreases chs.len(),
{
    if chs.len() == 0 {
        Some(Seq::empty())
    } else {
        match window_channels(chs.drop_last(), j, p, q, c, a, b, d, ov) {
            Some(r) => match window_all(chs.last(), j, p, q, c, a, b, d, ov) {
                Some(w) => Some(r.push(w)),
                None => None,
            },
            None => None,
        }
    }
}

/// The factor `p/q` that a number text with a decimal point gives, for a text of at most 19
/// digits and `.`: its digits read as one number over ten to the power of the number of
/// digits after the `.`.
pub open spec fn decimal_ratio(w: Seq<char>) -> Option<(int, int)> {
    if w.len() <= 19 && forall|i: int| 0 <= i < w.len() ==> is_digit(w[i]) || w[i] == '.' {
        Some((digits_value(w), pow10(fraction_len(w))))
    } else {
        None
    }
}

/// The events of `left` sped up (`fast`) or slowed down by a number with a decimal point:
/// none for a negative number or zero; else the window of `left`'s cycles that the factor
/// gives; `Unsupported` for any other step on the right or a number of more than 19
/// characters.
pub open spec fn decimal_speed(
    left: StepModel,
    right: StepModel,
    fast: bool,
    cycle: int,
    a: int,
    b: int,
    d: int,
    draws: Seq<u64>,
    limit: int,
    used: int,
    count: int,
    ov: bool,
) -> Played
    decreases left, 0x3_0000_0000int,
{
    match right {
        StepModel::Single(v, _) => match number_text(v) {
            Some(w) => if w.len() > 0 && w[0] == '-' {
                Ok((seq![Seq::empty()], used, count))
            } else {
                match decimal_ratio(w) {
                    Some((p, q)) => if p == 0 {
                        Ok((seq![Seq::empty()], used, count))
                    } else if fast {
                        windowed(left, cycle, p, q, a, b, d, draws, limit, used, count, ov)
                    } else {
                        windowed(left, cycle, q, p, a, b, d, draws, limit, used, count, ov)
                    },
                    None => Err(OutputError::Unsupported),
                }
            },
            None => Err(OutputError::Unsupported),
        },
        _ => Err(OutputError::Unsupported),
    }
}

/// The events of `left` played `p/q` times as fast: the window `[cycle*p/q, (cycle+1)*p/q)`
/// of its cycles stretched onto `[a/d, b/d)`; `Unsupported` when `p` or `q` exceeds `2^31`.
pub open spec fn windowed(
    left: StepModel,
    cycle: int,
    p: int,
    q: int,
    a: int,
    b: int,
    d: int,
    draws: Seq<u64>,
    limit: int,
    used: int,
    count: int,
    ov: bool,
) -> Played
    decreases left, 0x2_0000_0000int,
{
    if !(1 <= p <= 0x8000_0000 && 1 <= q <= 0x8000_0000) {
        Err(OutputError::Unsupported)
    } else {
        let first = (cycle * p) / q;
        let end = ((cycle + 1) * p + q - 1) / q;
        if !(0 <= first <= end <= 0x1_0000_0000) {
            Err(OutputError::Overflow)
        } else {
            play_window(left, first, end, cycle, p, q, a, b, d, draws, limit, seq![Seq::empty()], used, count, ov)
        }
    }
}

/// The events of `left`'s cycles `j` up to `end` seen through the window
/// `[cycle*p/q, (cycle+1)*p/q)` and stretched onto `[a/d, b/d)`, added after the events
/// `acc` of one channel.
pub open spec fn play_window(
    left: StepModel,
    j: int,
    end: int,
    cycle: int,
    p: int,
    q: int,
    a: int,
    b: int,
    d: int,
    draws: Seq<u64>,
    limit: int,
    acc: Seq<Seq<EventModel>>,
    used: int,
    count: int,
    ov: bool,
) -> Played
    decreases left, end - j + 1,
{
    if j >= end {
        Ok((acc, used, count))
    } else {
        match play(left, j, 0, 1, 1, draws, limit, used, count, ov) {
            Ok((chs, u, e)) => match window_channels(chs, j, p, q, cycle, a, b, d, ov) {
                Some(w) => play_window(
                    left,
                    j + 1,
                    end,
                    cycle,
                    p,
                    q,
                    a,
                    b,
                    d,
                    draws,
                    limit,
                    add_channels(acc, w, 0),
                    u,
                    e,
                    ov,
                ),
                None => Err(OutputError::Overflow),
            },
            Err(err) => Err(err),
        }
    }
}

/// The events of the polymeter steps `ch` counted `p` per cycle, from the cycle `j` of
/// those steps on up to the cycle `end`: each such cycle of the steps seen through the
/// window `[cycle*p/q, (cycle+1)*p/q)` (`q` the number of steps) and stretched onto
/// `[a/d, b/d)`, added after the events `acc` of one channel.
pub open spec fn play_cycles(
    ch: Seq<StepModel>,
    j: int,
    end: int,
    cycle: int,
    p: int,
    q: int,
    a: int,
    b: int,
    d: int,
    draws: Seq<u64>,
    limit: int,
    acc: Seq<Seq<EventModel>>,
    used: int,
    count: int,
    ov: bool,
) -> Played
    decreases ch, end - j + ch.len(),
{
    if j >= end {
        Ok((acc, used, count))
    } else {
        match play_parts(ch, 0, j, 0, 1, 1, draws, limit, seq![Seq::empty()], used, count, ov) {
            Ok((chs, u, e)) => match window_channels(chs, j, p, q, cycle, a, b, d, ov) {
                Some(w) => play_cycles(
                    ch,
                    j + 1,
                    end,
                    cycle,
                    p,
                    q,
                    a,
                    b,
                    d,
                    draws,
                    limit,
                    add_channels(acc, w, 0),
                    u,
                    e,
                    ov,
                ),
                None => Err(OutputError::Overflow),
            },
            Err(err) => Err(err),
        }
    }
}

/// The events of `left` sped up `n` times from slot `k` on: slot `k` of `n` equal parts of
/// `[a/d, b/d)` plays cycle number `cycle * n + k` of `left`; added to the channels `acc`.
pub open spec fn play_fast(
    left: StepModel,
    n: int,
    k: int,
    cycle: int,
    a: int,
    b: int,
    d: int,
    draws: Seq<u64>,
    limit: int,
    acc: Seq<Seq<EventModel>>,
    used: int,
    count: int,
    ov: bool,
) -> Played
    decreases left, n - k,
{
    if k < 0 || k >= n {
        Ok((acc, used, count))
    } else {
        match play(
            left,
            cycle * n + k,
            part_start(a, b, n, k),
            part_start(a, b, n, k + 1),
            d * n,
            draws,
            limit,
            used,
            count,
            ov,
        ) {
            Ok((c, u, e)) => play_fast(
                left,
                n,
                k + 1,
                cycle,
                a,
                b,
                d,
                draws,
                limit,
                add_channels(acc, c, 0),
                u,
                e,
                ov,
            ),
            Err(err) => Err(err),
        }
    }
}

/// The channels of a euclidean rhythm's slots `k..` over `[a/d, b/d)`: the events of
/// `left` in each pulse's slot (each played from the same draws and count), a rest in
/// each other slot, added to the channels `acc`.
pub open spec fn play_pulses(
    left: StepModel,
    pattern: Seq<bool>,
    k: int,
    cycle: int,
    a: int,
    b: int,
    d: int,
    draws: Seq<u64>,
    limit: int,
    used: int,
    count: int,
    acc: Seq<Seq<EventModel>>,
    ov: bool,
) -> Result<Seq<Seq<EventModel>>, OutputError>
    decreases left, pattern.len() - k,
{
    if k < 0 || k >= pattern.len() {
        Ok(acc)
    } else {
        let n = pattern.len() as int;
        let s = part_start(a, b, n, k);
        let e = part_start(a, b, n, k + 1);
        if pattern[k] {
            match play(left, cycle, s, e, d * n, draws, limit, used, count, ov) {
                Ok((c, _, _)) => play_pulses(
                    left,
                    pattern,
                    k + 1,
                    cycle,
                    a,
                    b,
                    d,
                    draws,
                    limit,
                    used,
                    count,
                    add_channels(acc, c, 0),
                    ov,
                ),
                Err(err) => Err(err),
            }
        } else {
            play_pulses(
                left,
                pattern,
                k + 1,
                cycle,
                a,
                b,
                d,
                draws,
                limit,
                used,
                count,
                add_channels(acc, seq![seq![rest_event(s, e, d * n)]], 0),
                ov,
            )
        }
    }
}

// ---------------------------------------------------------------------------------------------
// Evaluation

/// What an evaluation result holds.
pub open spec fn played(r: Result<(Vec<Vec<Event>>, usize, usize), OutputError>) -> Played {
    match r {
        Ok((chs, u, c)) => Ok((channel_models(chs@), u as int, c as int)),
        Err(e) => Err(e),
    }
}

proof fn lemma_part_bounds(a: int, b: int, d: int, n: int, k: int)
    requires
        0 <= a <= b <= d,
        0 <= k < n,
    ensures
        0 <= part_start(a, b, n, k) <= part_start(a, b, n, k + 1) <= d * n,
{
    assert(0 <= a * n) by (nonlinear_arith)
        requires
            0 <= a,
            0 <= n,
    ;
    assert(0 <= (b - a) * k) by (nonlinear_arith)
        requires
            0 <= b - a,
            0 <= k,
    ;
    assert((b - a) * k <= (b - a) * (k + 1)) by (nonlinear_arith)
        requires
            0 <= b - a,
            0 <= k,
    ;
    assert(a * n + (b - a) * (k + 1) <= d * n) by (nonlinear_arith)
        requires
            0 <= a <= b <= d,
            0 <= k < n,
    ;
}

fn clone_value(v: &Value) -> (r: Value)
    ensures
        r.model() == v.model(),
{
    v.copy()
}

fn rest_event_exec(a: u64, b: u64, d: u64) -> (r: Event)
    ensures
        r.model() == rest_event(a as int, b as int, d as int),
{
    let mut t = String::new();
    proof {
        reveal_strlit("~");
    }
    t.append("~");
    assert(t@ =~= seq!['~']);
    let targets: Vec<Target> = Vec::new();
    assert(target_models(targets@) =~= Seq::<TargetModel>::empty());
    Event { value: Value::Rest, text: t, targets, start: (a, d), end: (b, d) }
}

fn one_event(e: Event) -> (r: Vec<Vec<Event>>)
    ensures
        channel_models(r@) == seq![seq![e.model()]],
        r@.len() == 1,
{
    let mut c: Vec<Event> = Vec::new();
    c.push(e);
    let mut r: Vec<Vec<Event>> = Vec::new();
    r.push(c);
    assert(event_models(r@[0]@) =~= seq![e.model()]);
    assert(channel_models(r@) =~= seq![seq![e.model()]]);
    r
}

fn one_empty_channel() -> (r: Vec<Vec<Event>>)
    ensures
        channel_models(r@) == seq![Seq::<EventModel>::empty()],
        r@.len() == 1,
{
    let mut r: Vec<Vec<Event>> = Vec::new();
    r.push(Vec::new());
    assert(event_models(r@[0]@) =~= Seq::<EventModel>::empty());
    assert(channel_models(r@) =~= seq![Seq::<EventModel>::empty()]);
    r
}

fn add_channels_exec(acc: &mut Vec<Vec<Event>>, c: Vec<Vec<Event>>, offset: usize)
    requires
        offset <= old(acc)@.len(),
    ensures
        channel_models(final(acc)@) == add_channels(
            channel_models(old(acc)@),
            channel_models(c@),
            offset as int,
        ),
        final(acc)@.len() >= old(acc)@.len(),
        final(acc)@.len() >= offset + c@.len(),
{
    let ghost r0 = channel_models(acc@);
    let ghost cm = channel_models(c@);
    let mut c = c;
    let n = c.len();
    let mut j: usize = 0;
    assert(add_channels(r0, cm.take(0), offset as int) =~= r0);
    while j < n
        invariant
            n == cm.len(),
            j <= n,
            c@.len() == n - j,
            forall|i: int| 0 <= i < c@.len() ==> event_models(#[trigger] c@[i]@) == cm[j + i],
            offset <= r0.len(),
            channel_models(acc@) == add_channels(r0, cm.take(j as int), offset as int),
        decreases n - j,
    {
        let ghost before = channel_models(acc@);
        let ghost chm = event_models(c@[0]@);
        let ghost c_before = c@;
        assert(chm == cm[j as int]);
        let mut ch = c.remove(0);
        assert forall|i: int| 0 <= i < c@.len() implies event_models(#[trigger] c@[i]@) == cm[j + 1
            + i] by {
            assert(c@[i] == c_before[i + 1]);
        }
        assert(channel_models(acc@).len() == acc@.len());
        assert(add_channels(r0, cm.take(j as int), offset as int).len() >= offset + j);
        let alen = acc.len();
        assert(alen >= offset + j);
        let idx = offset + j;
        let ghost after = add_channels(r0, cm.take(j + 1), offset as int);
        if idx < alen {
            let mut t = acc.remove(idx);
            let ghost tm = event_models(t@);
            assert(tm == before[idx as int]);
            t.append(&mut ch);
            assert(event_models(t@) =~= tm + chm);
            acc.insert(idx, t);
            assert forall|m: int|
                0 <= m < after.len() implies channel_models(acc@)[m] == after[m] by {
                if m == idx {
                    assert(cm.take(j + 1)[m - offset] == chm);
                    assert(before[m] =~= r0[m] + Seq::<EventModel>::empty());
                    assert(after[m] =~= r0[m] + chm);
                } else {
                    assert(channel_models(acc@)[m] == before[m]);
                    if offset <= m < offset + j {
                        assert(cm.take(j + 1)[m - offset] == cm.take(j as int)[m - offset]);
                    }
                }
            }
            assert(channel_models(acc@) =~= after);
        } else {
            let ghost chm2 = event_models(ch@);
            acc.push(ch);
            assert forall|m: int|
                0 <= m < after.len() implies channel_models(acc@)[m] == after[m] by {
                if m == idx {
                    assert(cm.take(j + 1)[m - offset] == chm);
                    assert(after[m] =~= chm);
                } else {
                    assert(channel_models(acc@)[m] == before[m]);
                    if offset <= m < offset + j {
                        assert(cm.take(j + 1)[m - offset] == cm.take(j as int)[m - offset]);
                    }
                }
            }
            assert(channel_models(acc@) =~= after);
        }
        j = j + 1;
    }
    assert(cm.take(n as int) =~= cm);
    assert(channel_models(acc@).len() == acc@.len());
}

fn step_integer_exec(st: &Step) -> (r: Option<i64>)
    ensures
        match r {
            Some(v) => step_integer(st.model()) == Some(v as int) && i32::MIN <= v <= i32::MAX,
            None => step_integer(st.model()) is None,
        },
{
    match st {
        Step::Single(Value::Integer(i), _) => Some(*i as i64),
        Step::Single(Value::Pitch(p), _) => Some(p.midi_note() as i64),
        Step::Single(Value::Chord(p, _), _) => Some(p.midi_note() as i64),
        Step::Single(Value::Target(Target::Index(i)), _) => Some(*i as i64),
        _ => None,
    }
}

fn value_target_exec(v: &Value, text: &String) -> (r: Option<Target>)
    ensures
        match r {
            Some(t) => value_target(v.model(), text@) == Some(t.model()),
            None => value_target(v.model(), text@) is None,
        },
{
    match v {
        Value::Rest => None,
        Value::Hold => None,
        Value::Integer(i) => Some(Target::Index(*i)),
        Value::Target(t) => Some(t.copy()),
        Value::Name(n) => Some(Target::Named(n.clone(), None)),
        _ => Some(Target::Named(text.clone(), None)),
    }
}

fn target_of_exec(st: &Step) -> (r: Option<Option<Target>>)
    ensures
        match r {
            Some(Some(t)) => target_of(st.model()) == Some(Some(t.model())),
            Some(None) => target_of(st.model()) == Some(None::<TargetModel>),
            None => target_of(st.model()) is None,
        },
{
    match st {
        Step::Single(v, text) => Some(value_target_exec(v, text)),
        _ => None,
    }
}

fn add_target_exec(ts: &mut Vec<Target>, t: &Target)
    ensures
        target_models(final(ts)@) == add_target(target_models(old(ts)@), t.model()),
{
    let ghost m = target_models(ts@);
    let mut found = false;
    let mut i: usize = 0;
    while i < ts.len()
        invariant
            m == target_models(ts@),
            i <= ts@.len(),
            found <==> exists|j: int| 0 <= j < i && same_key(#[trigger] m[j], t.model()),
        decreases ts@.len() - i,
    {
        if ts[i].equal_key(t) {
            assert(same_key(m[i as int], t.model()));
            found = true;
        }
        i = i + 1;
    }
    if !found {
        ts.push(t.copy());
        assert(target_models(ts@) =~= m.push(t.model()));
    }
}

fn targeted_exec(chs: Vec<Vec<Event>>, t: &Target) -> (r: Vec<Vec<Event>>)
    ensures
        channel_models(r@) == targeted(channel_models(chs@), t.model()),
        r@.len() == chs@.len(),
{
    let ghost cm = channel_models(chs@);
    let ghost goal = targeted(cm, t.model());
    let mut chs = chs;
    let n = chs.len();
    let mut out: Vec<Vec<Event>> = Vec::new();
    // walk the channels from the last, then turn them back into their order
    while chs.len() > 0
        invariant
            n == cm.len(),
            goal == targeted(cm, t.model()),
            chs@.len() + out@.len() == n,
            forall|i: int| 0 <= i < chs@.len() ==> event_models(#[trigger] chs@[i]@) == cm[i],
            forall|i: int|
                0 <= i < out@.len() ==> event_models(#[trigger] out@[i]@) == goal[n - 1 - i],
        decreases chs@.len(),
    {
        let mut ch = chs.pop().unwrap();
        let ghost k0 = chs@.len() as int;
        let ghost em = event_models(ch@);
        assert(em == cm[k0]);
        let mut evs: Vec<Event> = Vec::new();
        while ch.len() > 0
            invariant
                ch@.len() + evs@.len() == em.len(),
                forall|i: int| 0 <= i < ch@.len() ==> #[trigger] ch@[i].model() == em[i],
                forall|i: int|
                    0 <= i < evs@.len() ==> (#[trigger] evs@[i]).model() == (EventModel {
                        value: em[em.len() - 1 - i].value,
                        text: em[em.len() - 1 - i].text,
                        targets: add_target(em[em.len() - 1 - i].targets, t.model()),
                        start: em[em.len() - 1 - i].start,
                        end: em[em.len() - 1 - i].end,
                    }),
            decreases ch@.len(),
        {
            let mut e = ch.pop().unwrap();
            let ghost oldm = e.model();
            add_target_exec(&mut e.targets, t);
            assert(e.model() == (EventModel {
                value: oldm.value,
                text: oldm.text,
                targets: add_target(oldm.targets, t.model()),
                start: oldm.start,
                end: oldm.end,
            }));
            evs.push(e);
        }
        let mut fwd: Vec<Event> = Vec::new();
        let ghost total = evs@.len();
        while evs.len() > 0
            invariant
                total == em.len(),
                evs@.len() + fwd@.len() == total,
                forall|i: int|
                    0 <= i < evs@.len() ==> (#[trigger] evs@[i]).model() == (EventModel {
                        value: em[total - 1 - i].value,
                        text: em[total - 1 - i].text,
                        targets: add_target(em[total - 1 - i].targets, t.model()),
                        start: em[total - 1 - i].start,
                        end: em[total - 1 - i].end,
                    }),
                forall|i: int|
                    0 <= i < fwd@.len() ==> (#[trigger] fwd@[i]).model() == (EventModel {
                        value: em[i].value,
                        text: em[i].text,
                        targets: add_target(em[i].targets, t.model()),
                        start: em[i].start,
                        end: em[i].end,
                    }),
            decreases evs@.len(),
        {
            let e = evs.pop().unwrap();
            fwd.push(e);
        }
        assert(event_models(fwd@) =~= goal[k0]);
        out.push(fwd);
    }
    let mut r: Vec<Vec<Event>> = Vec::new();
    while out.len() > 0
        invariant
            n == cm.len(),
            goal == targeted(cm, t.model()),
            out@.len() + r@.len() == n,
            forall|i: int|
                0 <= i < out@.len() ==> event_models(#[trigger] out@[i]@) == goal[n - 1 - i],
            forall|i: int| 0 <= i < r@.len() ==> event_models(#[trigger] r@[i]@) == goal[i],
        decreases out@.len(),
    {
        let c = out.pop().unwrap();
        r.push(c);
    }
    assert(channel_models(r@) =~= goal);
    assert(channel_models(r@).len() == r@.len());
    r
}

proof fn lemma_product_fits(x: int, y: int)
    requires
        0 <= x <= 0xFFFF_FFFF_FFFF_FFFF,
        0 <= y <= 0xFFFF_FFFF_FFFF_FFFF,
    ensures
        0 <= x * y <= 0xFFFF_FFFF_FFFF_FFFF * 0xFFFF_FFFF_FFFF_FFFF,
{
    assert(0 <= x * y <= 0xFFFF_FFFF_FFFF_FFFF * 0xFFFF_FFFF_FFFF_FFFF) by (nonlinear_arith)
        requires
            0 <= x <= 0xFFFF_FFFF_FFFF_FFFF,
            0 <= y <= 0xFFFF_FFFF_FFFF_FFFF,
    ;
}

fn overlaps_exec(e: &Event, t: &Event) -> (r: bool)
    ensures
        r == overlaps(e.model(), t.model()),
{
    proof {
        lemma_product_fits(e.start.0 as int, t.end.1 as int);
        lemma_product_fits(t.end.0 as int, e.start.1 as int);
        lemma_product_fits(t.start.0 as int, e.end.1 as int);
        lemma_product_fits(e.end.0 as int, t.start.1 as int);
    }
    (e.start.0 as u128) * (t.end.1 as u128) < (t.end.0 as u128) * (e.start.1 as u128) && (
    t.start.0 as u128) * (e.end.1 as u128) < (e.end.0 as u128) * (t.start.1 as u128)
}

fn add_targets_exec(ts: &mut Vec<Target>, us: &Vec<Target>)
    ensures
        target_models(final(ts)@) == add_targets(target_models(old(ts)@), target_models(us@)),
{
    let ghost m0 = target_models(ts@);
    let ghost um = target_models(us@);
    let mut i: usize = 0;
    assert(um.take(0) =~= Seq::<TargetModel>::empty());
    while i < us.len()
        invariant
            i <= us@.len(),
            um == target_models(us@),
            target_models(ts@) == add_targets(m0, um.take(i as int)),
        decreases us@.len() - i,
    {
        assert(um.take(i + 1).drop_last() =~= um.take(i as int));
        assert(um.take(i + 1).last() == us@[i as int].model());
        add_target_exec(ts, &us[i]);
        i = i + 1;
    }
    assert(um.take(us@.len() as int) =~= um);
}

fn target_event_exec(e: &mut Event, te: &Event)
    ensures
        final(e).model() == target_event(old(e).model(), te.model()),
{
    if overlaps_exec(&*e, te) {
        match value_target_exec(&te.value, &te.text) {
            Some(t) => add_target_exec(&mut e.targets, &t),
            None => {},
        }
        add_targets_exec(&mut e.targets, &te.targets);
    }
}

fn copy_event(e: &Event) -> (r: Event)
    ensures
        r.model() == e.model(),
{
    let mut ts: Vec<Target> = Vec::new();
    let mut i: usize = 0;
    while i < e.targets.len()
        invariant
            i <= e.targets@.len(),
            ts@.len() == i,
            forall|k: int| 0 <= k < i ==> (#[trigger] ts@[k]).model() == e.targets@[k].model(),
        decreases e.targets@.len() - i,
    {
        ts.push(e.targets[i].copy());
        i = i + 1;
    }
    assert(target_models(ts@) =~= target_models(e.targets@));
    Event { value: e.value.copy(), text: e.text.clone(), targets: ts, start: e.start, end: e.end }
}

fn apply_targets_exec(l: &Vec<Event>, tc: &Vec<Event>) -> (r: Vec<Event>)
    ensures
        event_models(r@) == apply_targets(event_models(l@), event_models(tc@)),
{
    let ghost lm = event_models(l@);
    let ghost tm = event_models(tc@);
    let mut out: Vec<Event> = Vec::new();
    let mut i: usize = 0;
    while i < l.len()
        invariant
            i <= l@.len(),
            out@.len() == i,
            lm == event_models(l@),
            tm == event_models(tc@),
            forall|k: int| 0 <= k < i ==> (#[trigger] out@[k]).model() == targets_from(lm[k], tm),
        decreases l@.len() - i,
    {
        let mut e = copy_event(&l[i]);
        let mut k: usize = 0;
        assert(tm.take(0) =~= Seq::<EventModel>::empty());
        while k < tc.len()
            invariant
                i < l@.len(),
                k <= tc@.len(),
                lm == event_models(l@),
                tm == event_models(tc@),
                e.model() == targets_from(lm[i as int], tm.take(k as int)),
            decreases tc@.len() - k,
        {
            assert(tm.take(k + 1).drop_last() =~= tm.take(k as int));
            assert(tm.take(k + 1).last() == tc@[k as int].model());
            target_event_exec(&mut e, &tc[k]);
            k = k + 1;
        }
        assert(tm.take(tc@.len() as int) =~= tm);
        out.push(e);
        i = i + 1;
    }
    assert(event_models(out@) =~= apply_targets(lm, tm));
    out
}

fn cross_targets_exec(ls: &Vec<Vec<Event>>, rs: &Vec<Vec<Event>>) -> (r: Vec<Vec<Event>>)
    ensures
        channel_models(r@) == cross_targets(channel_models(ls@), channel_models(rs@)),
        ls@.len() >= 1 && rs@.len() >= 1 ==> r@.len() >= 1,
{
    let ghost lm = channel_models(ls@);
    let ghost rm = channel_models(rs@);
    let mut out: Vec<Vec<Event>> = Vec::new();
    let mut k: usize = 0;
    assert(rm.take(0) =~= Seq::<Seq<EventModel>>::empty());
    assert(channel_models(out@) =~= Seq::<Seq<EventModel>>::empty());
    while k < rs.len()
        invariant
            k <= rs@.len(),
            lm == channel_models(ls@),
            rm == channel_models(rs@),
            channel_models(out@) == cross_targets(lm, rm.take(k as int)),
            k > 0 ==> out@.len() >= ls@.len(),
        decreases rs@.len() - k,
    {
        let ghost before = channel_models(out@);
        let mut i: usize = 0;
        while i < ls.len()
            invariant
                i <= ls@.len(),
                k < rs@.len(),
                lm == channel_models(ls@),
                rm == channel_models(rs@),
                out@.len() == before.len() + i,
                channel_models(out@) == before + Seq::new(
                    i as nat,
                    |j: int| apply_targets(lm[j], rm[k as int]),
                ),
            decreases ls@.len() - i,
        {
            let ch = apply_targets_exec(&ls[i], &rs[k]);
            let ghost cm = event_models(ch@);
            let ghost prev = channel_models(out@);
            out.push(ch);
            assert(channel_models(out@) =~= prev.push(cm));
            assert(before + Seq::new((i + 1) as nat, |j: int| apply_targets(lm[j], rm[k as int]))
                =~= (before + Seq::new(i as nat, |j: int| apply_targets(lm[j], rm[k as int]))).push(
                cm,
            ));
            i = i + 1;
        }
        assert(rm.take(k + 1).drop_last() =~= rm.take(k as int));
        assert(rm.take(k + 1).last() == rm[k as int]);
        assert(Seq::new(ls@.len() as nat, |j: int| apply_targets(lm[j], rm[k as int])) =~= Seq::new(
            lm.len(),
            |j: int| apply_targets(lm[j], rm.take(k + 1).last()),
        ));
        k = k + 1;
    }
    assert(rm.take(rs@.len() as int) =~= rm);
    out
}

fn merge_all(chs: Vec<Vec<Event>>) -> (r: Vec<Vec<Event>>)
    ensures
        channel_models(r@) == merged_channels(channel_models(chs@)),
        r@.len() == chs@.len(),
{
    let ghost cm = channel_models(chs@);
    let mut chs = chs;
    let n = chs.len();
    let mut rev: Vec<Vec<Event>> = Vec::new();
    while chs.len() > 0
        invariant
            chs@.len() + rev@.len() == n,
            n == cm.len(),
            forall|i: int| 0 <= i < chs@.len() ==> event_models(#[trigger] chs@[i]@) == cm[i],
            forall|i: int|
                0 <= i < rev@.len() ==> event_models(#[trigger] rev@[i]@) == cm[n - 1 - i],
        decreases chs@.len(),
    {
        let c = chs.pop().unwrap();
        rev.push(c);
    }
    let mut out: Vec<Vec<Event>> = Vec::new();
    let mut i: usize = 0;
    while rev.len() > 0
        invariant
            n == cm.len(),
            i + rev@.len() == n,
            forall|j: int|
                0 <= j < rev@.len() ==> event_models(#[trigger] rev@[j]@) == cm[n - 1 - j],
            out@.len() == i,
            forall|j: int|
                0 <= j < i ==> event_models(#[trigger] out@[j]@) == merge_rests(merge_holds(cm[j])),
        decreases rev@.len(),
    {
        let c = rev.pop().unwrap();
        let merged = merge_channel(merge_channel(c, true), false);
        out.push(merged);
        i = i + 1;
    }
    assert(channel_models(out@) =~= merged_channels(cm));
    out
}

proof fn lemma_pow10_monotone(a: nat, b: nat)
    requires
        a <= b,
    ensures
        1 <= pow10(a) <= pow10(b),
    decreases b,
{
    if b > 0 {
        if a == b {
            lemma_pow10_monotone(0, (b - 1) as nat);
        } else {
            lemma_pow10_monotone(a, (b - 1) as nat);
        }
    }
}

proof fn lemma_pow10_values()
    ensures
        pow10(19) == 10_000_000_000_000_000_000,
{
    reveal_with_fuel(pow10, 20);
}

fn reversed<T>(v: Vec<T>) -> (r: Vec<T>)
    ensures
        r@ == v@.reverse(),
{
    let ghost v0 = v@;
    let n = v.len();
    let mut v = v;
    let mut r: Vec<T> = Vec::new();
    while v.len() > 0
        invariant
            n == v0.len(),
            v@.len() + r@.len() == n,
            forall|i: int| 0 <= i < v@.len() ==> v@[i] == v0[i],
            forall|i: int| 0 <= i < r@.len() ==> r@[i] == v0[n - 1 - i],
        decreases v@.len(),
    {
        let x = v.pop().unwrap();
        r.push(x);
    }
    assert(r@ =~= v0.reverse());
    r
}

fn chance_of_exec(v: &Value) -> (r: Result<Option<(u128, u128)>, ()>)
    ensures
        match r {
            Ok(Some((n, d))) => chance_of(v.model()) == Ok::<Option<(int, int)>, ()>(
                Some((n as int, d as int)),
            ) && n <= d && 1 <= d <= 10_000_000_000_000_000_000,
            Ok(None) => chance_of(v.model()) == Ok::<Option<(int, int)>, ()>(None),
            Err(_) => chance_of(v.model()) is Err,
        },
{
    match v {
        Value::Integer(i) => {
            let n: u128 = if *i < 0 {
                0
            } else if *i > 100 {
                100
            } else {
                *i as u128
            };
            Ok(Some((n, 100)))
        },
        Value::Pitch(p) => Ok(Some((p.midi_note() as u128, 128))),
        Value::Chord(p, _) => Ok(Some((p.midi_note() as u128, 128))),
        Value::Float(t) => float_chance_exec(t),
        Value::Target(Target::Index(i)) => Ok(
            Some(
                if *i >= 1 {
                    (1, 1)
                } else {
                    (0, 1)
                },
            ),
        ),
        Value::Target(Target::Named(_, Some(t))) => float_chance_exec(t),
        _ => Ok(None),
    }
}

fn float_chance_exec(t: &String) -> (r: Result<Option<(u128, u128)>, ()>)
    ensures
        match r {
            Ok(Some((n, d))) => float_chance(t@) == Ok::<Option<(int, int)>, ()>(
                Some((n as int, d as int)),
            ) && n <= d && 1 <= d <= 10_000_000_000_000_000_000,
            Ok(None) => float_chance(t@) == Ok::<Option<(int, int)>, ()>(None),
            Err(_) => float_chance(t@) is Err,
        },
{
    let w = crate::text::chars_of(t.as_str());
    if w.len() > 19 {
        return Err(());
    }
    if w.len() > 0 && w[0] == '-' {
        return Ok(Some((0, 1)));
    }
    match decimal_parts(t) {
        Some((p, q)) => if p > q {
            Ok(Some((1, 1)))
        } else {
            Ok(Some((p, q)))
        },
        None => Err(()),
    }
}

fn number_text_exec(v: &Value) -> (r: Option<&String>)
    ensures
        match r {
            Some(t) => number_text(v.model()) == Some(t@),
            None => number_text(v.model()) is None,
        },
{
    match v {
        Value::Float(t) => Some(t),
        Value::Target(Target::Named(_, Some(t))) => Some(t),
        _ => None,
    }
}

fn fast_factor_exec(st: &Step) -> (r: Option<i64>)
    ensures
        match r {
            Some(v) => fast_factor(st.model()) == Some(v as int) && i32::MIN <= v <= i32::MAX,
            None => fast_factor(st.model()) is None,
        },
{
    match st {
        Step::Single(Value::Float(_), _) => None,
        Step::Single(Value::Target(Target::Named(_, Some(_))), _) => None,
        Step::Single(_, _) => match step_integer_exec(st) {
            Some(n) => Some(n),
            None => Some(0),
        },
        _ => None,
    }
}

fn count_ratio_exec(st: &Step) -> (r: Option<(i128, i128)>)
    ensures
        match r {
            Some((p, q)) => count_ratio(st.model()) == Some((p as int, q as int)) && i32::MIN <= p
                <= 10_000_000_000_000_000_000 && 1 <= q <= 10_000_000_000_000_000_000,
            None => count_ratio(st.model()) is None,
        },
{
    match fast_factor_exec(st) {
        Some(n) => Some((n as i128, 1)),
        None => match st {
            Step::Single(v, _) => match number_text_exec(v) {
                Some(t) => text_ratio_exec(t),
                None => None,
            },
            _ => None,
        },
    }
}

/// The span `[a/d, b/d)`'s part `k` of `n` as bounds over `d * n`.
fn part_bounds(a: u64, b: u64, d: u64, n: u64, k: u64) -> (r: (u64, u64, u64))
    requires
        a <= b <= d,
        d >= 1,
        k < n,
        d * n <= u64::MAX,
    ensures
        r.0 == part_start(a as int, b as int, n as int, k as int),
        r.1 == part_start(a as int, b as int, n as int, k as int + 1),
        r.2 == d * n,
        r.0 <= r.1 <= r.2,
        r.2 >= 1,
{
    proof {
        assert(d * n >= 1) by (nonlinear_arith)
            requires
                d >= 1,
                n > k >= 0,
        ;
        lemma_part_bounds(a as int, b as int, d as int, n as int, k as int);
        assert(a * n <= part_start(a as int, b as int, n as int, k as int)) by (nonlinear_arith)
            requires
                a <= b,
                0 <= k,
        ;
        assert((b - a) * (k + 1) <= part_start(a as int, b as int, n as int, k as int + 1))
            by (nonlinear_arith)
            requires
                0 <= a,
                0 <= n,
        ;
    }
    let an = a * n;
    let s = an + (b - a) * k;
    let e = an + (b - a) * (k + 1);
    (s, e, d * n)
}

fn single_event(v: &Value, t: &String, a: u64, b: u64, d: u64) -> (r: Event)
    ensures
        r.model() == (EventModel {
            value: v.model(),
            text: t@,
            targets: Seq::empty(),
            start: (a as int, d as int),
            end: (b as int, d as int),
        }),
{
    let targets: Vec<Target> = Vec::new();
    assert(target_models(targets@) =~= Seq::<TargetModel>::empty());
    Event { value: clone_value(v), text: t.clone(), targets, start: (a, d), end: (b, d) }
}

#[verifier::rlimit(50)]
#[verifier::rlimit(100)]
#[verifier::spinoff_prover]
fn play_exec(
    step: &Step,
    cycle: u32,
    a: u64,
    b: u64,
    d: u64,
    draws: &Vec<u64>,
    limit: usize,
    used: usize,
    count: usize,
    ov: bool,
) -> (r: Result<(Vec<Vec<Event>>, usize, usize), OutputError>)
    requires
        a <= b <= d,
        d >= 1,
        count <= limit,
    ensures
        played(r) == play(
            step.model(),
            cycle as int,
            a as int,
            b as int,
            d as int,
            draws@,
            limit as int,
            used as int,
            count as int,
            ov,
        ),
        r matches Ok((chs, _, c)) ==> c <= limit && chs@.len() >= 1,
    decreases step, 0int,
{
    match step {
        Step::Single(v, t) => {
            if count >= limit {
                return Err(OutputError::EventLimit);
            }
            Ok((one_event(single_event(v, t, a, b, d)), used, count + 1))
        },
        Step::Subdivision(ch) => {
            if ch.len() == 0 {
                assert(child_models(ch).len() == 0);
                return Ok((one_event(rest_event_exec(a, b, d)), used, count));
            }
            let n = ch.len() as u64;
            assert(child_models(ch).len() == ch@.len());
            match d.checked_mul(n) {
                None => Err(OutputError::Overflow),
                Some(_) => play_parts_exec(
                    ch,
                    0,
                    cycle,
                    a,
                    b,
                    d,
                    draws,
                    limit,
                    one_empty_channel(),
                    used,
                    count,
                    ov,
                ),
            }
        },
        Step::Stack(ch) => {
            if ch.len() == 0 {
                assert(child_models(ch).len() == 0);
                return Ok((one_event(rest_event_exec(a, b, d)), used, count));
            }
            let acc: Vec<Vec<Event>> = Vec::new();
            assert(channel_models(acc@) =~= Seq::<Seq<EventModel>>::empty());
            play_stacked_exec(ch, 0, cycle, a, b, d, draws, limit, acc, used, count, ov)
        },
        Step::Alternating(ch) => {
            if ch.len() == 0 {
                assert(child_models(ch).len() == 0);
                return Ok((one_event(rest_event_exec(a, b, d)), used, count));
            }
            let n = ch.len();
            let k = (cycle as usize) % n;
            let c2 = ((cycle as usize) / n) as u32;
            assert(child_models(ch).len() == n);
            assert(child_models(ch)[k as int] == ch@[k as int].model());
            play_exec(&ch[k], c2, a, b, d, draws, limit, used, count, ov)
        },
        Step::Choices(ch) => {
            if ch.len() == 0 {
                assert(child_models(ch).len() == 0);
                return Ok((one_event(rest_event_exec(a, b, d)), used, count));
            }
            assert(child_models(ch).len() == ch@.len());
            if used >= draws.len() {
                return Err(OutputError::MissingDraw);
            }
            let k = (draws[used] % (ch.len() as u64)) as usize;
            assert(child_models(ch)[k as int] == ch@[k as int].model());
            play_exec(&ch[k], cycle, a, b, d, draws, limit, used + 1, count, ov)
        },
        Step::Bjorklund(l, st, p, r) => play_euclid_exec(
            l,
            st,
            p,
            r,
            cycle,
            a,
            b,
            d,
            draws,
            limit,
            used,
            count,
            ov,
        ),
        Step::Fast(l, r) => match fast_factor_exec(r) {
            Some(n) => {
                if n <= 0 {
                    return Ok((one_empty_channel(), used, count));
                }
                let n = n as u64;
                proof {
                    assert(cycle * n <= 0xFFFF_FFFFint * 0x7FFF_FFFFint) by (nonlinear_arith)
                        requires
                            cycle <= 0xFFFF_FFFFint,
                            n <= 0x7FFF_FFFFint,
                            0 <= n,
                    ;
                }
                if d.checked_mul(n).is_none() || (cycle as u64) * n + n - 1 > u32::MAX as u64 {
                    return Err(OutputError::Overflow);
                }
                play_fast_exec(
                    l,
                    n,
                    0,
                    cycle,
                    a,
                    b,
                    d,
                    draws,
                    limit,
                    one_empty_channel(),
                    used,
                    count,
                    ov,
                )
            },
            None => match &**r {
                Step::Single(_, _) => play_decimal_exec(
                    l,
                    r,
                    true,
                    cycle,
                    a,
                    b,
                    d,
                    draws,
                    limit,
                    used,
                    count,
                    ov,
                ),
                _ => match play_exec(r, cycle, a, b, d, draws, limit, used, count, ov) {
                    Ok((rc, u, c)) => speed_pattern_exec(l, true, rc, cycle, a, b, d, draws, limit, u, c, ov),
                    Err(e) => Err(e),
                },
            },
        },
        Step::Degrade(l, v) => play_degrade_exec(l, v, cycle, a, b, d, draws, limit, used, count, ov),
        Step::Target(l, r) => match &**r {
            Step::Single(_, _) => play_target_exec(l, r, cycle, a, b, d, draws, limit, used, count, ov),
            _ => match play_exec(l, cycle, a, b, d, draws, limit, used, count, true) {
                Ok((lc, u, c)) => match play_exec(r, cycle, a, b, d, draws, limit, u, c, true) {
                    Ok((rc, u2, c2)) => {
                        let lm = merge_all(lc);
                        let rm = merge_all(rc);
                        Ok((cross_targets_exec(&lm, &rm), u2, c2))
                    },
                    Err(e) => Err(e),
                },
                Err(e) => Err(e),
            },
        },
        Step::Polymeter(ch, cnt) => match &**cnt {
            Step::Single(_, _) => play_polymeter_exec(
                ch,
                cnt,
                cycle,
                a,
                b,
                d,
                draws,
                limit,
                used,
                count,
                ov,
            ),
            _ => match play_exec(cnt, cycle, a, b, d, draws, limit, used, count, ov) {
                Ok((rc, u, c)) => count_pattern_exec(ch, rc, cycle, a, b, d, draws, limit, u, c, ov),
                Err(e) => Err(e),
            },
        },
        Step::Slow(l, r) => match fast_factor_exec(r) {
            Some(n) => {
                if n <= 0 {
                    return Ok((one_empty_channel(), used, count));
                }
                let n = n as u32;
                let c0 = cycle / n;
                match play_exec(l, c0, 0, 1, 1, draws, limit, used, count, ov) {
                    Ok((chs, u, c)) => match window_channels_exec(
                        chs,
                        c0 as u64,
                        1,
                        n as u64,
                        cycle as u64,
                        a,
                        b,
                        d,
                        ov,
                    ) {
                        Some(w) => Ok((w, u, c)),
                        None => Err(OutputError::Overflow),
                    },
                    Err(e) => Err(e),
                }
            },
            None => match &**r {
                Step::Single(_, _) => play_decimal_exec(
                    l,
                    r,
                    false,
                    cycle,
                    a,
                    b,
                    d,
                    draws,
                    limit,
                    used,
                    count,
                    ov,
                ),
                _ => match play_exec(r, cycle, a, b, d, draws, limit, used, count, ov) {
                    Ok((rc, u, c)) => speed_pattern_exec(l, false, rc, cycle, a, b, d, draws, limit, u, c, ov),
                    Err(e) => Err(e),
                },
            },
        },
        Step::Repeat | Step::Replicate(_, _) | Step::Weight(_, _) | Step::Range(_, _) => {
            Ok((one_event(rest_event_exec(a, b, d)), used, count))
        },
        _ => Err(OutputError::Unsupported),
    }
}

fn play_euclid_exec(
    l: &Box<Step>,
    st: &Box<Step>,
    p: &Box<Step>,
    r: &Option<Box<Step>>,
    cycle: u32,
    a: u64,
    b: u64,
    d: u64,
    draws: &Vec<u64>,
    limit: usize,
    used: usize,
    count: usize,
    ov: bool,
) -> (res: Result<(Vec<Vec<Event>>, usize, usize), OutputError>)
    requires
        a <= b <= d,
        d >= 1,
        count <= limit,
    ensures
        played(res) == play(
            StepModel::Bjorklund(
                Box::new(l.model()),
                Box::new(st.model()),
                Box::new(p.model()),
                match r {
                    Some(rs) => Some(Box::new(rs.model())),
                    None => None,
                },
            ),
            cycle as int,
            a as int,
            b as int,
            d as int,
            draws@,
            limit as int,
            used as int,
            count as int,
            ov,
        ),
        res matches Ok((chs, _, c)) ==> c <= limit && chs@.len() >= 1,
    decreases l, usize::MAX as int + 1,
{
            let sv = step_integer_exec(st);
            let pv = step_integer_exec(p);
            match (sv, pv) {
                (Some(sv), Some(pv)) => {
                    let pulses: u32 = if sv > 0 {
                        sv as u32
                    } else {
                        0
                    };
                    let steps: u32 = if pv > 0 {
                        pv as u32
                    } else {
                        0
                    };
                    let rot: i64 = match r {
                        Some(rs) => match step_integer_exec(rs) {
                            Some(x) => x,
                            None => 0,
                        },
                        None => 0,
                    };
                    if rot == i32::MIN as i64 && pulses < steps {
                        return Err(OutputError::Unsupported);
                    }
                    let pattern = euclidean(pulses, steps, rot as i32);
                    let plen = pattern.len();
                    assert(pattern@.len() <= usize::MAX);
                    if plen > 0 && d.checked_mul(plen as u64).is_none() {
                        return Err(OutputError::Overflow);
                    }
                    let (_, u, c) = match play_exec(l, cycle, 0, 1, 1, draws, limit, used, count, ov) {
                        Ok(x) => x,
                        Err(e) => {
                            return Err(e);
                        },
                    };
                    if plen == 0 {
                        return Ok((one_empty_channel(), u, c));
                    }
                    match play_pulses_exec(
                        l,
                        &pattern,
                        0,
                        cycle,
                        a,
                        b,
                        d,
                        draws,
                        limit,
                        used,
                        count,
                        one_empty_channel(),
                        ov,
                    ) {
                        Ok(chs) => Ok((chs, u, c)),
                        Err(e) => Err(e),
                    }
                },
                _ => Ok((one_empty_channel(), used, count)),
            }
        }

fn degrade_one(e: Event, n: u128, d: u128, r: u64) -> (res: Event)
    requires
        n <= d,
        d <= 10_000_000_000_000_000_000,
    ensures
        res.model() == degraded(e.model(), n as int, d as int, r),
{
    proof {
        assert(n * 0x1_0000_0000_0000_0000 <= 10_000_000_000_000_000_000int * 0x1_0000_0000_0000_0000)
            by (nonlinear_arith)
            requires
                n <= 10_000_000_000_000_000_000int,
        ;
        assert((r as int) * d <= 0xFFFF_FFFF_FFFF_FFFFint * 10_000_000_000_000_000_000int)
            by (nonlinear_arith)
            requires
                r <= 0xFFFF_FFFF_FFFF_FFFFint,
                d <= 10_000_000_000_000_000_000int,
                0 <= d,
        ;
    }
    if n * 0x1_0000_0000_0000_0000u128 < (r as u128) * d {
        Event { value: Value::Rest, text: e.text, targets: e.targets, start: e.start, end: e.end }
    } else {
        e
    }
}

#[verifier::loop_isolation(false)]
fn degrade_channel_exec(
    evs: Vec<Event>,
    n: u128,
    d: u128,
    draws: &Vec<u64>,
    used: usize,
) -> (r: Option<(Vec<Event>, usize)>)
    requires
        n <= d,
        d <= 10_000_000_000_000_000_000,
    ensures
        match r {
            Some((v, u)) => degrade_from(
                event_models(evs@),
                0,
                n as int,
                d as int,
                draws@,
                Seq::empty(),
                used as int,
            ) == Some((event_models(v@), u as int)),
            None => degrade_from(
                event_models(evs@),
                0,
                n as int,
                d as int,
                draws@,
                Seq::empty(),
                used as int,
            ) is None,
        },
{
    let ghost m = event_models(evs@);
    let total = evs.len();
    let mut rv = reversed(evs);
    let mut out: Vec<Event> = Vec::new();
    let mut u = used;
    let mut i: usize = 0;
    assert(event_models(out@) =~= Seq::<EventModel>::empty());
    while rv.len() > 0
        invariant
            n <= d,
            d <= 10_000_000_000_000_000_000,
            total == m.len(),
            i + rv@.len() == total,
            forall|j: int| 0 <= j < rv@.len() ==> #[trigger] rv@[j].model() == m[total - 1 - j],
            degrade_from(m, 0, n as int, d as int, draws@, Seq::empty(), used as int) == degrade_from(
                m,
                i as int,
                n as int,
                d as int,
                draws@,
                event_models(out@),
                u as int,
            ),
        decreases rv@.len(),
    {
        let e = rv.pop().unwrap();
        assert(e.model() == m[i as int]);
        if u >= draws.len() {
            assert(degrade_from(
                m,
                i as int,
                n as int,
                d as int,
                draws@,
                event_models(out@),
                u as int,
            ) is None);
            assert(degrade_from(m, 0, n as int, d as int, draws@, Seq::empty(), used as int)
                is None);
            return None;
        }
        let ghost before = event_models(out@);
        let x = degrade_one(e, n, d, draws[u]);
        let ghost xm = x.model();
        out.push(x);
        assert(event_models(out@) =~= before.push(xm));
        u = u + 1;
        i = i + 1;
    }
    Some((out, u))
}

#[verifier::loop_isolation(false)]
fn degrade_channels_exec(
    chs: Vec<Vec<Event>>,
    n: u128,
    d: u128,
    draws: &Vec<u64>,
    used: usize,
) -> (r: Option<(Vec<Vec<Event>>, usize)>)
    requires
        n <= d,
        d <= 10_000_000_000_000_000_000,
    ensures
        match r {
            Some((v, u)) => degrade_channels(
                channel_models(chs@),
                0,
                n as int,
                d as int,
                draws@,
                Seq::empty(),
                used as int,
            ) == Some((channel_models(v@), u as int)) && v@.len() == chs@.len(),
            None => degrade_channels(
                channel_models(chs@),
                0,
                n as int,
                d as int,
                draws@,
                Seq::empty(),
                used as int,
            ) is None,
        },
{
    let ghost m = channel_models(chs@);
    let total = chs.len();
    let mut rv = reversed(chs);
    let mut out: Vec<Vec<Event>> = Vec::new();
    let mut u = used;
    let mut i: usize = 0;
    assert(channel_models(out@) =~= Seq::<Seq<EventModel>>::empty());
    while rv.len() > 0
        invariant
            n <= d,
            d <= 10_000_000_000_000_000_000,
            total == m.len(),
            i + rv@.len() == total,
            out@.len() == i,
            forall|j: int|
                0 <= j < rv@.len() ==> event_models(#[trigger] rv@[j]@) == m[total - 1 - j],
            degrade_channels(m, 0, n as int, d as int, draws@, Seq::empty(), used as int)
                == degrade_channels(
                m,
                i as int,
                n as int,
                d as int,
                draws@,
                channel_models(out@),
                u as int,
            ),
        decreases rv@.len(),
    {
        let c = rv.pop().unwrap();
        assert(event_models(c@) == m[i as int]);
        match degrade_channel_exec(c, n, d, draws, u) {
            Some((v, u2)) => {
                let ghost before = channel_models(out@);
                let ghost vm = event_models(v@);
                out.push(v);
                assert(channel_models(out@) =~= before.push(vm));
                u = u2;
            },
            None => {
                assert(degrade_channels(
                    m,
                    i as int,
                    n as int,
                    d as int,
                    draws@,
                    channel_models(out@),
                    u as int,
                ) is None);
                assert(degrade_channels(m, 0, n as int, d as int, draws@, Seq::empty(), used as int)
                    is None);
                return None;
            },
        }
        i = i + 1;
    }
    Some((out, u))
}

fn play_degrade_exec(
    l: &Box<Step>,
    v: &Value,
    cycle: u32,
    a: u64,
    b: u64,
    d: u64,
    draws: &Vec<u64>,
    limit: usize,
    used: usize,
    count: usize,
    ov: bool,
) -> (res: Result<(Vec<Vec<Event>>, usize, usize), OutputError>)
    requires
        a <= b <= d,
        d >= 1,
        count <= limit,
    ensures
        played(res) == play(
            StepModel::Degrade(Box::new(l.model()), v.model()),
            cycle as int,
            a as int,
            b as int,
            d as int,
            draws@,
            limit as int,
            used as int,
            count as int,
            ov,
        ),
        res matches Ok((chs, _, c)) ==> c <= limit && chs@.len() >= 1,
    decreases l, 1int,
{
    match chance_of_exec(v) {
        Ok(None) => play_exec(l, cycle, a, b, d, draws, limit, used, count, ov),
        Ok(Some((n, dn))) => match play_exec(l, cycle, a, b, d, draws, limit, used, count, ov) {
            Ok((chs, u, c)) => match degrade_channels_exec(chs, n, dn, draws, u) {
                Some((chs2, u2)) => Ok((chs2, u2, c)),
                None => Err(OutputError::MissingDraw),
            },
            Err(e) => Err(e),
        },
        Err(_) => Err(OutputError::Unsupported),
    }
}

fn play_target_exec(
    l: &Box<Step>,
    r: &Box<Step>,
    cycle: u32,
    a: u64,
    b: u64,
    d: u64,
    draws: &Vec<u64>,
    limit: usize,
    used: usize,
    count: usize,
    ov: bool,
) -> (res: Result<(Vec<Vec<Event>>, usize, usize), OutputError>)
    requires
        target_of(r.model()) is Some,
        a <= b <= d,
        d >= 1,
        count <= limit,
    ensures
        played(res) == play(
            StepModel::Target(Box::new(l.model()), Box::new(r.model())),
            cycle as int,
            a as int,
            b as int,
            d as int,
            draws@,
            limit as int,
            used as int,
            count as int,
            ov,
        ),
        res matches Ok((chs, _, c)) ==> c <= limit && chs@.len() >= 1,
    decreases l, 1int,
{
    match target_of_exec(r) {
            Some(t) => match play_exec(l, cycle, a, b, d, draws, limit, used, count, ov) {
                Ok((chs, u, c)) => match t {
                    Some(t) => Ok((targeted_exec(chs, &t), u, c)),
                    None => Ok((chs, u, c)),
                },
                Err(e) => Err(e),
            },
            None => Err(OutputError::Unsupported),
        }
}

fn play_polymeter_exec(
    ch: &Vec<Step>,
    cnt: &Box<Step>,
    cycle: u32,
    a: u64,
    b: u64,
    d: u64,
    draws: &Vec<u64>,
    limit: usize,
    used: usize,
    count: usize,
    ov: bool,
) -> (res: Result<(Vec<Vec<Event>>, usize, usize), OutputError>)
    requires
        a <= b <= d,
        d >= 1,
        count <= limit,
        cnt.model() is Single,
    ensures
        played(res) == play(
            StepModel::Polymeter(child_models(ch), Box::new(cnt.model())),
            cycle as int,
            a as int,
            b as int,
            d as int,
            draws@,
            limit as int,
            used as int,
            count as int,
            ov,
        ),
        res matches Ok((chs, _, c)) ==> c <= limit && chs@.len() >= 1,
    decreases ch, 0x4_0000_0000_0000_0000_0000int,
{
    match count_ratio_exec(cnt) {
        Some((p, r)) => play_counted_exec(ch, p, r, cycle, a, b, d, draws, limit, used, count, ov),
        None => Err(OutputError::Unsupported),
    }
}

fn play_counted_exec(
    ch: &Vec<Step>,
    p: i128,
    r: i128,
    cycle: u32,
    a: u64,
    b: u64,
    d: u64,
    draws: &Vec<u64>,
    limit: usize,
    used: usize,
    count: usize,
    ov: bool,
) -> (res: Result<(Vec<Vec<Event>>, usize, usize), OutputError>)
    requires
        a <= b <= d,
        d >= 1,
        count <= limit,
        i32::MIN <= p <= 10_000_000_000_000_000_000,
        1 <= r <= 10_000_000_000_000_000_000,
    ensures
        played(res) == play_counted(
            child_models(ch),
            p as int,
            r as int,
            cycle as int,
            a as int,
            b as int,
            d as int,
            draws@,
            limit as int,
            used as int,
            count as int,
            ov,
        ),
        res matches Ok((chs, _, c)) ==> c <= limit && chs@.len() >= 1,
    decreases ch, 0x2_0000_0000 + ch@.len(),
{
    if p <= 0 {
        return Ok((one_empty_channel(), used, count));
    }
    assert(child_models(ch).len() == ch@.len());
    proof {
        assert((ch@.len() as int) * r <= 0xFFFF_FFFF_FFFF_FFFFint * 10_000_000_000_000_000_000int)
            by (nonlinear_arith)
            requires
                ch@.len() <= 0xFFFF_FFFF_FFFF_FFFFint,
                1 <= r <= 10_000_000_000_000_000_000int,
        ;
    }
    if ch.len() == 0 || p > 0x8000_0000 || (ch.len() as u128) * (r as u128) > 0x8000_0000 {
        return Err(OutputError::Unsupported);
    }
    let p = p as u64;
    let q = ((ch.len() as u128) * (r as u128)) as u64;
    proof {
        assert(cycle * p <= 0xFFFF_FFFFint * 0x8000_0000int) by (nonlinear_arith)
            requires
                cycle <= 0xFFFF_FFFFint,
                p <= 0x8000_0000int,
                0 <= p,
        ;
        assert((cycle + 1) * p <= 0x1_0000_0000int * 0x8000_0000int) by (nonlinear_arith)
            requires
                cycle <= 0xFFFF_FFFFint,
                p <= 0x8000_0000int,
                0 <= p,
        ;
        assert(q >= 1 && ch@.len() <= q) by (nonlinear_arith)
            requires
                q == ch@.len() * r,
                ch@.len() >= 1,
                r >= 1,
        ;
    }
    let first = ((cycle as u64) * p) / q;
    let end = (((cycle as u64) + 1) * p + q - 1) / q;
    if end > 0x1_0000_0000 {
        return Err(OutputError::Overflow);
    }
    proof {
        assert(first <= end) by (nonlinear_arith)
            requires
                first == (cycle * p) / (q as int),
                end == ((cycle + 1) * p + q - 1) / (q as int),
                q >= 1,
                p >= 0,
                cycle >= 0,
        ;
    }
    play_cycles_exec(
        ch,
        first,
        end,
        cycle,
        p,
        q,
        a,
        b,
        d,
        draws,
        limit,
        one_empty_channel(),
        used,
        count,
        ov,
    )
}

fn count_items_exec(
    ch: &Vec<Step>,
    items: &Vec<(usize, Event)>,
    i: usize,
    cycle: u32,
    a: u64,
    b: u64,
    d: u64,
    draws: &Vec<u64>,
    limit: usize,
    acc: Vec<Vec<Event>>,
    used: usize,
    count: usize,
    ov: bool,
) -> (r: Result<(Vec<Vec<Event>>, usize, usize), OutputError>)
    requires
        a <= b <= d,
        d >= 1,
        count <= limit,
        i <= items@.len(),
        acc@.len() >= 1,
    ensures
        played(r) == count_items(
            child_models(ch),
            item_models(items@),
            i as int,
            cycle as int,
            a as int,
            b as int,
            d as int,
            draws@,
            limit as int,
            channel_models(acc@),
            used as int,
            count as int,
            ov,
        ),
        r matches Ok((chs, _, c)) ==> c <= limit && chs@.len() >= 1,
    decreases ch, 0x4_0000_0000 + ch@.len() + items@.len() - i,
{
    assert(child_models(ch).len() == ch@.len());
    if i >= items.len() {
        return Ok((acc, used, count));
    }
    let k = items[i].0;
    let e = &items[i].1;
    let ghost em = e.model();
    assert(item_models(items@)[i as int] == (k as int, em));
    let r = match value_ratio_exec(&e.value) {
        Some((p, q)) => play_counted_exec(ch, p, q, cycle, a, b, d, draws, limit, used, count, ov),
        None => Err(OutputError::Unsupported),
    };
    match r {
        Ok((chs, u, c)) => {
            if k > acc.len() {
                return Err(OutputError::Unsupported);
            }
            let cropped = crop_channels_exec(chs, e.start, e.end, ov);
            let mut acc = acc;
            add_channels_exec(&mut acc, cropped, k);
            count_items_exec(ch, items, i + 1, cycle, a, b, d, draws, limit, acc, u, c, ov)
        },
        Err(err) => Err(err),
    }
}

fn speed_pattern_exec(
    l: &Step,
    fast: bool,
    rc: Vec<Vec<Event>>,
    cycle: u32,
    a: u64,
    b: u64,
    d: u64,
    draws: &Vec<u64>,
    limit: usize,
    used: usize,
    count: usize,
    ov: bool,
) -> (r: Result<(Vec<Vec<Event>>, usize, usize), OutputError>)
    requires
        a <= b <= d,
        d >= 1,
        count <= limit,
        rc@.len() >= 1,
    ensures
        played(r) == speed_items(
            l.model(),
            fast,
            tagged(merged_channels(channel_models(rc@))),
            0,
            cycle as int,
            a as int,
            b as int,
            d as int,
            draws@,
            limit as int,
            empty_channels(rc@.len()),
            used as int,
            count as int,
            ov,
        ),
        r matches Ok((chs, _, c)) ==> c <= limit && chs@.len() >= 1,
    decreases l, 0x4_0000_0000_0000_0000_0000int,
{
    let n = rc.len();
    let items = tagged_exec(merge_all(rc));
    let m = items.len();
    assert(m == items@.len());
    speed_items_exec(l, fast, &items, 0, cycle, a, b, d, draws, limit, empty_channels_exec(n), used, count, ov)
}

fn count_pattern_exec(
    ch: &Vec<Step>,
    rc: Vec<Vec<Event>>,
    cycle: u32,
    a: u64,
    b: u64,
    d: u64,
    draws: &Vec<u64>,
    limit: usize,
    used: usize,
    count: usize,
    ov: bool,
) -> (r: Result<(Vec<Vec<Event>>, usize, usize), OutputError>)
    requires
        a <= b <= d,
        d >= 1,
        count <= limit,
        rc@.len() >= 1,
    ensures
        played(r) == count_items(
            child_models(ch),
            tagged(merged_channels(channel_models(rc@))),
            0,
            cycle as int,
            a as int,
            b as int,
            d as int,
            draws@,
            limit as int,
            empty_channels(rc@.len()),
            used as int,
            count as int,
            ov,
        ),
        r matches Ok((chs, _, c)) ==> c <= limit && chs@.len() >= 1,
    decreases ch, 0x4_0000_0000_0000_0000_0000int,
{
    let n = rc.len();
    let items = tagged_exec(merge_all(rc));
    let m = items.len();
    let cn = ch.len();
    assert(m == items@.len() && cn == ch@.len());
    count_items_exec(ch, &items, 0, cycle, a, b, d, draws, limit, empty_channels_exec(n), used, count, ov)
}

fn play_parts_exec(
    ch: &Vec<Step>,
    k: usize,
    cycle: u32,
    a: u64,
    b: u64,
    d: u64,
    draws: &Vec<u64>,
    limit: usize,
    acc: Vec<Vec<Event>>,
    used: usize,
    count: usize,
    ov: bool,
) -> (r: Result<(Vec<Vec<Event>>, usize, usize), OutputError>)
    requires
        a <= b <= d,
        d >= 1,
        k <= ch@.len(),
        d * ch@.len() <= u64::MAX,
        count <= limit,
        acc@.len() >= 1,
    ensures
        played(r) == play_parts(
            child_models(ch),
            k as int,
            cycle as int,
            a as int,
            b as int,
            d as int,
            draws@,
            limit as int,
            channel_models(acc@),
            used as int,
            count as int,
            ov,
        ),
        r matches Ok((chs, _, c)) ==> c <= limit && chs@.len() >= 1,
    decreases ch, ch@.len() - k,
{
    if k >= ch.len() {
        return Ok((acc, used, count));
    }
    let n = ch.len() as u64;
    let (s, e, dn) = part_bounds(a, b, d, n, k as u64);
    assert(child_models(ch)[k as int] == ch@[k as int].model());
    match play_exec(&ch[k], cycle, s, e, dn, draws, limit, used, count, ov) {
        Ok((c, u, cnt)) => {
            let mut acc = acc;
            add_channels_exec(&mut acc, c, 0);
            play_parts_exec(ch, k + 1, cycle, a, b, d, draws, limit, acc, u, cnt, ov)
        },
        Err(err) => Err(err),
    }
}

fn play_stacked_exec(
    ch: &Vec<Step>,
    k: usize,
    cycle: u32,
    a: u64,
    b: u64,
    d: u64,
    draws: &Vec<u64>,
    limit: usize,
    acc: Vec<Vec<Event>>,
    used: usize,
    count: usize,
    ov: bool,
) -> (r: Result<(Vec<Vec<Event>>, usize, usize), OutputError>)
    requires
        a <= b <= d,
        d >= 1,
        k <= ch@.len(),
        count <= limit,
        acc@.len() >= k,
        k < ch@.len() || acc@.len() >= 1,
    ensures
        played(r) == play_stacked(
            child_models(ch),
            k as int,
            cycle as int,
            a as int,
            b as int,
            d as int,
            draws@,
            limit as int,
            channel_models(acc@),
            used as int,
            count as int,
            ov,
        ),
        r matches Ok((chs, _, c)) ==> c <= limit && chs@.len() >= 1,
    decreases ch, ch@.len() - k,
{
    if k >= ch.len() {
        return Ok((acc, used, count));
    }
    assert(child_models(ch)[k as int] == ch@[k as int].model());
    match play_exec(&ch[k], cycle, a, b, d, draws, limit, used, count, ov) {
        Ok((c, u, cnt)) => {
            let mut acc = acc;
            let ghost cl = c@.len();
            add_channels_exec(&mut acc, c, k);
            assert(channel_models(acc@).len() == acc@.len());
            assert(acc@.len() >= k + cl);
            play_stacked_exec(ch, k + 1, cycle, a, b, d, draws, limit, acc, u, cnt, ov)
        },
        Err(err) => Err(err),
    }
}

fn window_one_exec(
    e: Event,
    j: u64,
    p: u64,
    q: u64,
    c: u64,
    a: u64,
    b: u64,
    d: u64,
    ov: bool,
) -> (r: Option<Option<Event>>)
    requires
        a <= b <= d,
        1 <= p <= 0x8000_0000,
        1 <= q <= 0x8000_0000,
        j <= 0xFFFF_FFFF,
        c <= 0xFFFF_FFFF,
    ensures
        match r {
            Some(Some(ev)) => window_one(
                e.model(),
                j as int,
                p as int,
                q as int,
                c as int,
                a as int,
                b as int,
                d as int,
                ov,
            ) == Some(Some(ev.model())),
            Some(None) => window_one(
                e.model(),
                j as int,
                p as int,
                q as int,
                c as int,
                a as int,
                b as int,
                d as int,
                ov,
            ) == Some(None::<EventModel>),
            None => window_one(
                e.model(),
                j as int,
                p as int,
                q as int,
                c as int,
                a as int,
                b as int,
                d as int,
                ov,
            ) is None,
        },
{
    let x = e.start.0 as u128;
    let y = e.start.1 as u128;
    let x2 = e.end.0 as u128;
    let y2 = e.end.1 as u128;
    let (p2, q2, j2, c2) = (p as u128, q as u128, j as u128, c as u128);
    if y < 1 || y2 < 1 {
        return None;
    }
    let ghost m64: int = 0xFFFF_FFFF_FFFF_FFFF;
    proof {
        lemma_window_bounds(x as int, y as int, j as int, p as int, q as int, c as int);
        lemma_window_bounds(x2 as int, y2 as int, j as int, p as int, q as int, c as int);
        assert((d as int) * y <= m64 * m64) by (nonlinear_arith)
            requires
                d <= m64,
                y <= m64,
                0 <= d,
                0 <= y,
        ;
        assert((d as int) * y2 <= m64 * m64) by (nonlinear_arith)
            requires
                d <= m64,
                y2 <= m64,
                0 <= d,
                0 <= y2,
        ;
    }
    let t = q2 * (j2 * y + x);
    let cpy = c2 * p2 * y;
    let c1py = (c2 + 1) * p2 * y;
    let t2 = q2 * (j2 * y2 + x2);
    let cpy2 = c2 * p2 * y2;
    let c1py2 = (c2 + 1) * p2 * y2;
    let keep = if ov {
        t < c1py && cpy2 < t2
    } else {
        cpy <= t && t < c1py
    };
    if !keep {
        return Some(None);
    }
    let start: (u64, u64) = if cpy <= t {
        match window_start(a, b, d, p, y, t, cpy, c1py, c) {
            Some(st) => st,
            None => {
                return None;
            },
        }
    } else {
        (a, d)
    };
    if t2 >= c1py2 {
        return Some(
            Some(Event { value: e.value, text: e.text, targets: e.targets, start, end: (b, d) }),
        );
    }
    if t2 < cpy2 {
        return None;
    }
    match window_start(a, b, d, p, y2, t2, cpy2, c1py2, c) {
        Some(end) => Some(
            Some(Event { value: e.value, text: e.text, targets: e.targets, start, end }),
        ),
        None => None,
    }
}

/// The bound `(a*p*y + (b-a)*(t - cpy), d*p*y)` of an event stretched from a window onto
/// `[a/d, b/d)`, `t` the bound's numerator scaled to the window and `cpy` the window's
/// start; `None` when `d*p*y` leaves the `u64` range.
fn window_start(
    a: u64,
    b: u64,
    d: u64,
    p: u64,
    y: u128,
    t: u128,
    cpy: u128,
    c1py: u128,
    c: u64,
) -> (r: Option<(u64, u64)>)
    requires
        a <= b <= d,
        1 <= p <= 0x8000_0000,
        1 <= y <= 0xFFFF_FFFF_FFFF_FFFF,
        cpy <= t < c1py,
        cpy == (c as int) * (p as int) * (y as int),
        c1py == (c as int + 1) * (p as int) * (y as int),
        c1py == cpy + (p as int) * (y as int),
    ensures
        match r {
            Some(st) => (d as int) * p * y <= u64::MAX && st == (
                ((a as int) * p * y + (b - a) * (t - cpy)) as u64,
                ((d as int) * p * y) as u64,
            ) && (a as int) * p * y + (b - a) * (t - cpy) <= (d as int) * p * y,
            None => (d as int) * p * y > u64::MAX,
        },
{
    let ghost m64: int = 0xFFFF_FFFF_FFFF_FFFF;
    let p2 = p as u128;
    proof {
        assert((d as int) * y <= m64 * m64) by (nonlinear_arith)
            requires
                d <= m64,
                y <= m64,
                0 <= d,
                0 <= y,
        ;
    }
    let dy = (d as u128) * y;
    if dy > 0xFFFF_FFFF_FFFF_FFFFu128 {
        proof {
            assert((d as int) * p * y >= (d as int) * y) by (nonlinear_arith)
                requires
                    p >= 1,
                    d >= 0,
                    y >= 0,
            ;
        }
        return None;
    }
    proof {
        assert(dy * p2 <= m64 * 0x8000_0000int) by (nonlinear_arith)
            requires
                dy <= m64,
                p2 <= 0x8000_0000int,
                0 <= dy,
        ;
        assert((d as int) * p * y == dy * p2) by (nonlinear_arith)
            requires
                dy == (d as int) * y,
                p2 == p,
        ;
    }
    let dpy = dy * p2;
    if dpy > 0xFFFF_FFFF_FFFF_FFFFu128 {
        return None;
    }
    let w = t - cpy;
    proof {
        lemma_window_numerator(a as int, b as int, d as int, p as int, y as int, w as int, cpy as int, c1py as int, c as int);
        assert((a as int) * p <= m64 * 0x8000_0000int) by (nonlinear_arith)
            requires
                a <= m64,
                p <= 0x8000_0000int,
                0 <= a,
        ;
    }
    let sn = (a as u128) * p2 * y + ((b - a) as u128) * w;
    Some((sn as u64, dpy as u64))
}

/// Bounds of the products that `window_one_exec` forms, all within the `u128` range.
proof fn lemma_window_bounds(x: int, y: int, j: int, p: int, q: int, c: int)
    requires
        0 <= x <= 0xFFFF_FFFF_FFFF_FFFF,
        1 <= y <= 0xFFFF_FFFF_FFFF_FFFF,
        0 <= j <= 0xFFFF_FFFF,
        1 <= p <= 0x8000_0000,
        1 <= q <= 0x8000_0000,
        0 <= c <= 0xFFFF_FFFF,
    ensures
        0 <= j * y <= 0xFFFF_FFFF * 0xFFFF_FFFF_FFFF_FFFF,
        0 <= q * (j * y + x) <= 0x8000_0000 * (0xFFFF_FFFF * 0xFFFF_FFFF_FFFF_FFFF
            + 0xFFFF_FFFF_FFFF_FFFF),
        0 <= c * p <= 0xFFFF_FFFF * 0x8000_0000,
        0 <= c * p * y <= (c + 1) * p * y,
        (c + 1) * p <= 0x1_0000_0000 * 0x8000_0000,
        (c + 1) * p * y <= 0x1_0000_0000 * 0x8000_0000 * 0xFFFF_FFFF_FFFF_FFFF,
        (c + 1) * p * y == c * p * y + p * y,
{
    assert(0 <= j * y <= 0xFFFF_FFFF * 0xFFFF_FFFF_FFFF_FFFF) by (nonlinear_arith)
        requires
            0 <= j <= 0xFFFF_FFFF,
            1 <= y <= 0xFFFF_FFFF_FFFF_FFFF,
    ;
    assert(0 <= q * (j * y + x) <= 0x8000_0000 * (0xFFFF_FFFF * 0xFFFF_FFFF_FFFF_FFFF
        + 0xFFFF_FFFF_FFFF_FFFF)) by (nonlinear_arith)
        requires
            0 <= j * y <= 0xFFFF_FFFF * 0xFFFF_FFFF_FFFF_FFFF,
            0 <= x <= 0xFFFF_FFFF_FFFF_FFFF,
            1 <= q <= 0x8000_0000,
    ;
    assert(0 <= c * p <= 0xFFFF_FFFF * 0x8000_0000) by (nonlinear_arith)
        requires
            0 <= c <= 0xFFFF_FFFF,
            1 <= p <= 0x8000_0000,
    ;
    assert((c + 1) * p <= 0x1_0000_0000 * 0x8000_0000) by (nonlinear_arith)
        requires
            0 <= c <= 0xFFFF_FFFF,
            1 <= p <= 0x8000_0000,
    ;
    assert(0 <= c * p * y <= (c + 1) * p * y) by (nonlinear_arith)
        requires
            0 <= c,
            1 <= p,
            1 <= y,
    ;
    assert((c + 1) * p * y <= 0x1_0000_0000 * 0x8000_0000 * 0xFFFF_FFFF_FFFF_FFFF)
        by (nonlinear_arith)
        requires
            (c + 1) * p <= 0x1_0000_0000 * 0x8000_0000,
            1 <= y <= 0xFFFF_FFFF_FFFF_FFFF,
            0 <= c,
            1 <= p,
    ;
    assert((c + 1) * p * y == c * p * y + p * y) by (nonlinear_arith);
}

/// The start numerator that `window_one_exec` forms stays within its denominator.
proof fn lemma_window_numerator(
    a: int,
    b: int,
    d: int,
    p: int,
    y: int,
    w: int,
    cpy: int,
    c1py: int,
    c: int,
)
    requires
        0 <= a <= b <= d,
        1 <= p,
        1 <= y,
        0 <= w,
        w + cpy < c1py,
        cpy == c * p * y,
        c1py == (c + 1) * p * y,
        c1py == cpy + p * y,
    ensures
        0 <= a * p * y,
        0 <= (b - a) * w,
        a * p * y + (b - a) * w <= d * p * y,
{
    assert(w < p * y);
    assert(0 <= a * p * y) by (nonlinear_arith)
        requires
            0 <= a,
            1 <= p,
            1 <= y,
    ;
    assert(0 <= (b - a) * w <= (b - a) * (p * y)) by (nonlinear_arith)
        requires
            0 <= b - a,
            0 <= w < p * y,
    ;
    assert(a * p * y + (b - a) * (p * y) == b * p * y) by (nonlinear_arith);
    assert(b * p * y <= d * p * y) by (nonlinear_arith)
        requires
            b <= d,
            1 <= p,
            1 <= y,
    ;
}

fn window_all_exec(
    evs: Vec<Event>,
    j: u64,
    p: u64,
    q: u64,
    c: u64,
    a: u64,
    b: u64,
    d: u64,
    ov: bool,
) -> (r: Option<Vec<Event>>)
    requires
        a <= b <= d,
        1 <= p <= 0x8000_0000,
        1 <= q <= 0x8000_0000,
        j <= 0xFFFF_FFFF,
        c <= 0xFFFF_FFFF,
    ensures
        match r {
            Some(v) => window_all(
                event_models(evs@),
                j as int,
                p as int,
                q as int,
                c as int,
                a as int,
                b as int,
                d as int,
                ov,
            ) == Some(event_models(v@)),
            None => window_all(
                event_models(evs@),
                j as int,
                p as int,
                q as int,
                c as int,
                a as int,
                b as int,
                d as int,
                ov,
            ) is None,
        },
{
    let ghost m = event_models(evs@);
    let mut evs = evs;
    let total = evs.len();
    let mut rev: Vec<Event> = Vec::new();
    while evs.len() > 0
        invariant
            evs@.len() + rev@.len() == total,
            total == m.len(),
            forall|i: int| 0 <= i < evs@.len() ==> #[trigger] evs@[i].model() == m[i],
            forall|i: int|
                0 <= i < rev@.len() ==> #[trigger] rev@[i].model() == m[total - 1 - i],
        decreases evs@.len(),
    {
        let e = evs.pop().unwrap();
        rev.push(e);
    }
    let mut out: Vec<Event> = Vec::new();
    let mut failed = false;
    let mut i: usize = 0;
    assert(m.take(0) =~= Seq::<EventModel>::empty());
    assert(event_models(out@) =~= Seq::<EventModel>::empty());
    while rev.len() > 0
        invariant
            a <= b <= d,
            1 <= p <= 0x8000_0000,
            1 <= q <= 0x8000_0000,
            j <= 0xFFFF_FFFF,
            c <= 0xFFFF_FFFF,
            total == m.len(),
            i + rev@.len() == total,
            forall|j: int| 0 <= j < rev@.len() ==> #[trigger] rev@[j].model() == m[total - 1 - j],
            failed ==> window_all(
                m.take(i as int),
                j as int,
                p as int,
                q as int,
                c as int,
                a as int,
                b as int,
                d as int,
                ov,
            ) is None,
            !failed ==> window_all(
                m.take(i as int),
                j as int,
                p as int,
                q as int,
                c as int,
                a as int,
                b as int,
                d as int,
                ov,
            ) == Some(event_models(out@)),
        decreases rev@.len(),
    {
        let e = rev.pop().unwrap();
        let ghost em = e.model();
        assert(em == m[i as int]);
        assert(m.take(i + 1).drop_last() =~= m.take(i as int));
        assert(m.take(i + 1).last() == em);
        if !failed {
            let ghost before = event_models(out@);
            match window_one_exec(e, j, p, q, c, a, b, d, ov) {
                Some(Some(ev)) => {
                    let ghost evm = ev.model();
                    out.push(ev);
                    assert(event_models(out@) =~= before.push(evm));
                },
                Some(None) => {},
                None => {
                    failed = true;
                },
            }
        }
        i = i + 1;
    }
    assert(m.take(total as int) =~= m);
    if failed {
        None
    } else {
        Some(out)
    }
}

fn window_channels_exec(
    chs: Vec<Vec<Event>>,
    j: u64,
    p: u64,
    q: u64,
    c: u64,
    a: u64,
    b: u64,
    d: u64,
    ov: bool,
) -> (r: Option<Vec<Vec<Event>>>)
    requires
        a <= b <= d,
        1 <= p <= 0x8000_0000,
        1 <= q <= 0x8000_0000,
        j <= 0xFFFF_FFFF,
        c <= 0xFFFF_FFFF,
    ensures
        match r {
            Some(v) => window_channels(
                channel_models(chs@),
                j as int,
                p as int,
                q as int,
                c as int,
                a as int,
                b as int,
                d as int,
                ov,
            ) == Some(channel_models(v@)) && v@.len() == chs@.len(),
            None => window_channels(
                channel_models(chs@),
                j as int,
                p as int,
                q as int,
                c as int,
                a as int,
                b as int,
                d as int,
                ov,
            ) is None,
        },
{
    let ghost m = channel_models(chs@);
    let n = chs.len();
    let mut chs = chs;
    let mut out: Vec<Vec<Event>> = Vec::new();
    let mut failed = false;
    let mut i: usize = 0;
    assert(m.take(0) =~= Seq::<Seq<EventModel>>::empty());
    assert(channel_models(out@) =~= Seq::<Seq<EventModel>>::empty());
    while i < n
        invariant
            a <= b <= d,
            1 <= p <= 0x8000_0000,
            1 <= q <= 0x8000_0000,
            j <= 0xFFFF_FFFF,
            c <= 0xFFFF_FFFF,
            n == m.len(),
            i <= n,
            chs@.len() == n - i,
            forall|k: int| 0 <= k < chs@.len() ==> event_models(#[trigger] chs@[k]@) == m[i + k],
            !failed ==> out@.len() == i,
            failed ==> window_channels(
                m.take(i as int),
                j as int,
                p as int,
                q as int,
                c as int,
                a as int,
                b as int,
                d as int,
                ov,
            ) is None,
            !failed ==> window_channels(
                m.take(i as int),
                j as int,
                p as int,
                q as int,
                c as int,
                a as int,
                b as int,
                d as int,
                ov,
            ) == Some(channel_models(out@)),
        decreases n - i,
    {
        let ghost cb = chs@;
        let ch = chs.remove(0);
        assert forall|k: int| 0 <= k < chs@.len() implies event_models(#[trigger] chs@[k]@) == m[i
            + 1 + k] by {
            assert(chs@[k] == cb[k + 1]);
        }
        assert(event_models(ch@) == m[i as int]);
        assert(m.take(i + 1).drop_last() =~= m.take(i as int));
        assert(m.take(i + 1).last() == m[i as int]);
        if !failed {
            let ghost before = channel_models(out@);
            match window_all_exec(ch, j, p, q, c, a, b, d, ov) {
                Some(w) => {
                    let ghost wm = event_models(w@);
                    out.push(w);
                    assert(channel_models(out@) =~= before.push(wm));
                },
                None => {
                    failed = true;
                },
            }
        }
        i = i + 1;
    }
    assert(m.take(n as int) =~= m);
    if failed {
        None
    } else {
        Some(out)
    }
}

fn text_ratio_exec(t: &String) -> (r: Option<(i128, i128)>)
    ensures
        match r {
            Some((p, q)) => text_ratio(t@) == Some((p as int, q as int)) && 0 <= p
                <= 10_000_000_000_000_000_000 && 1 <= q <= 10_000_000_000_000_000_000,
            None => text_ratio(t@) is None,
        },
{
    let w = crate::text::chars_of(t.as_str());
    if w.len() > 0 && w[0] == '-' {
        return Some((0, 1));
    }
    match decimal_parts(t) {
        Some((p, q)) => Some((p as i128, q as i128)),
        None => None,
    }
}

fn value_ratio_exec(v: &Value) -> (r: Option<(i128, i128)>)
    ensures
        match r {
            Some((p, q)) => value_ratio(v.model()) == Some((p as int, q as int)) && i32::MIN <= p
                <= 10_000_000_000_000_000_000 && 1 <= q <= 10_000_000_000_000_000_000,
            None => value_ratio(v.model()) is None,
        },
{
    match v {
        Value::Float(t) => text_ratio_exec(t),
        Value::Target(Target::Named(_, Some(t))) => text_ratio_exec(t),
        Value::Integer(i) => Some((*i as i128, 1)),
        Value::Pitch(p) => Some((p.midi_note() as i128, 1)),
        Value::Chord(p, _) => Some((p.midi_note() as i128, 1)),
        Value::Target(Target::Index(i)) => Some((*i as i128, 1)),
        _ => Some((0, 1)),
    }
}

fn empty_channels_exec(n: usize) -> (r: Vec<Vec<Event>>)
    ensures
        channel_models(r@) == empty_channels(n as nat),
        r@.len() == n,
{
    let mut r: Vec<Vec<Event>> = Vec::new();
    let mut i: usize = 0;
    while i < n
        invariant
            i <= n,
            r@.len() == i,
            forall|j: int| 0 <= j < i ==> (#[trigger] r@[j])@.len() == 0,
        decreases n - i,
    {
        r.push(Vec::new());
        i = i + 1;
    }
    assert forall|j: int| 0 <= j < n implies event_models(#[trigger] r@[j]@)
        =~= Seq::<EventModel>::empty() by {}
    assert(channel_models(r@) =~= empty_channels(n as nat));
    r
}

fn lt_frac_exec(x: (u64, u64), y: (u64, u64)) -> (r: bool)
    ensures
        r == lt_frac((x.0 as int, x.1 as int), (y.0 as int, y.1 as int)),
{
    proof {
        lemma_product_fits(x.0 as int, y.1 as int);
        lemma_product_fits(y.0 as int, x.1 as int);
    }
    (x.0 as u128) * (y.1 as u128) < (y.0 as u128) * (x.1 as u128)
}

fn crop_event_exec(e: Event, s: (u64, u64), t: (u64, u64), ov: bool) -> (r: Option<Event>)
    ensures
        match r {
            Some(ev) => crop_event(
                e.model(),
                (s.0 as int, s.1 as int),
                (t.0 as int, t.1 as int),
                ov,
            ) == Some(ev.model()),
            None => crop_event(
                e.model(),
                (s.0 as int, s.1 as int),
                (t.0 as int, t.1 as int),
                ov,
            ) is None,
        },
{
    let keep = if ov {
        lt_frac_exec(e.start, t) && lt_frac_exec(s, e.end)
    } else {
        !lt_frac_exec(e.start, s) && lt_frac_exec(e.start, t)
    };
    if !keep {
        return None;
    }
    let start = if lt_frac_exec(e.start, s) {
        s
    } else {
        e.start
    };
    let end = if lt_frac_exec(t, e.end) {
        t
    } else {
        e.end
    };
    Some(Event { value: e.value, text: e.text, targets: e.targets, start, end })
}

fn crop_channels_exec(chs: Vec<Vec<Event>>, s: (u64, u64), t: (u64, u64), ov: bool) -> (r: Vec<
    Vec<Event>,
>)
    ensures
        channel_models(r@) == crop_channels(
            channel_models(chs@),
            (s.0 as int, s.1 as int),
            (t.0 as int, t.1 as int),
            ov,
        ),
        r@.len() == chs@.len(),
{
    let ghost cm = channel_models(chs@);
    let ghost sm = (s.0 as int, s.1 as int);
    let ghost tm = (t.0 as int, t.1 as int);
    let n = chs.len();
    let mut chs = chs;
    let mut out: Vec<Vec<Event>> = Vec::new();
    let mut k: usize = 0;
    while k < n
        invariant
            k <= n,
            n == cm.len(),
            chs@.len() == n - k,
            sm == (s.0 as int, s.1 as int),
            tm == (t.0 as int, t.1 as int),
            forall|j: int| 0 <= j < chs@.len() ==> event_models(#[trigger] chs@[j]@) == cm[k + j],
            out@.len() == k,
            forall|j: int|
                0 <= j < k ==> event_models(#[trigger] out@[j]@) == crop_events(cm[j], sm, tm, ov),
        decreases n - k,
    {
        let ghost cb = chs@;
        let ch = chs.remove(0);
        assert forall|j: int| 0 <= j < chs@.len() implies event_models(#[trigger] chs@[j]@)
            == cm[k + 1 + j] by {
            assert(chs@[j] == cb[j + 1]);
        }
        let ghost em = event_models(ch@);
        assert(em == cm[k as int]);
        let mut ch = ch;
        let m = ch.len();
        let mut rev: Vec<Event> = Vec::new();
        while ch.len() > 0
            invariant
                ch@.len() + rev@.len() == m,
                m == em.len(),
                forall|i: int| 0 <= i < ch@.len() ==> #[trigger] ch@[i].model() == em[i],
                forall|i: int| 0 <= i < rev@.len() ==> #[trigger] rev@[i].model() == em[m - 1 - i],
            decreases ch@.len(),
        {
            let e = ch.pop().unwrap();
            rev.push(e);
        }
        let mut kept: Vec<Event> = Vec::new();
        let mut i: usize = 0;
        assert(em.take(0) =~= Seq::<EventModel>::empty());
        while rev.len() > 0
            invariant
                i + rev@.len() == m,
                m == em.len(),
                sm == (s.0 as int, s.1 as int),
                tm == (t.0 as int, t.1 as int),
                forall|j: int| 0 <= j < rev@.len() ==> #[trigger] rev@[j].model() == em[m - 1 - j],
                event_models(kept@) == crop_events(em.take(i as int), sm, tm, ov),
            decreases rev@.len(),
        {
            let e = rev.pop().unwrap();
            assert(e.model() == em[i as int]);
            assert(em.take(i + 1).drop_last() =~= em.take(i as int));
            assert(em.take(i + 1).last() == em[i as int]);
            let ghost before = event_models(kept@);
            match crop_event_exec(e, s, t, ov) {
                Some(ev) => {
                    let ghost evm = ev.model();
                    kept.push(ev);
                    assert(event_models(kept@) =~= before.push(evm));
                },
                None => {},
            }
            i = i + 1;
        }
        assert(em.take(m as int) =~= em);
        out.push(kept);
        k = k + 1;
    }
    assert(channel_models(out@) =~= crop_channels(cm, sm, tm, ov));
    out
}

/// What the numbered events of a vector hold, in order.
pub open spec fn item_models(v: Seq<(usize, Event)>) -> Seq<(int, EventModel)> {
    Seq::new(v.len(), |i: int| (v[i].0 as int, v[i].1.model()))
}

fn tagged_exec(chs: Vec<Vec<Event>>) -> (r: Vec<(usize, Event)>)
    ensures
        item_models(r@) == tagged(channel_models(chs@)),
        forall|i: int| 0 <= i < r@.len() ==> (#[trigger] r@[i]).0 < chs@.len(),
{
    let ghost cm = channel_models(chs@);
    let n = chs.len();
    let mut out: Vec<(usize, Event)> = Vec::new();
    let mut k: usize = 0;
    assert(cm.take(0) =~= Seq::<Seq<EventModel>>::empty());
    assert(item_models(out@) =~= Seq::<(int, EventModel)>::empty());
    while k < n
        invariant
            k <= n,
            n == cm.len(),
            cm == channel_models(chs@),
            item_models(out@) == tagged(cm.take(k as int)),
            forall|i: int| 0 <= i < out@.len() ==> (#[trigger] out@[i]).0 < n,
        decreases n - k,
    {
        let ghost before = item_models(out@);
        let ghost em = cm[k as int];
        let m = chs[k].len();
        let mut i: usize = 0;
        while i < m
            invariant
                i <= m,
                k < n,
                n == cm.len(),
                cm == channel_models(chs@),
                em == cm[k as int],
                m == em.len(),
                item_models(out@) == before + Seq::new(
                    i as nat,
                    |j: int| (k as int, em[j]),
                ),
                forall|j: int| 0 <= j < out@.len() ==> (#[trigger] out@[j]).0 < n,
            decreases m - i,
        {
            let e = copy_event(&chs[k][i]);
            let ghost prev = item_models(out@);
            out.push((k, e));
            assert(item_models(out@) =~= prev.push((k as int, em[i as int])));
            assert(before + Seq::new((i + 1) as nat, |j: int| (k as int, em[j])) =~= (before
                + Seq::new(i as nat, |j: int| (k as int, em[j]))).push((k as int, em[i as int])));
            i = i + 1;
        }
        assert(cm.take(k + 1).drop_last() =~= cm.take(k as int));
        assert(cm.take(k + 1).last() == em);
        assert(Seq::new(m as nat, |j: int| (k as int, em[j])) =~= Seq::new(
            cm.take(k + 1).last().len(),
            |j: int| ((cm.take(k + 1).len() - 1) as int, cm.take(k + 1).last()[j]),
        ));
        k = k + 1;
    }
    assert(cm.take(n as int) =~= cm);
    out
}

fn speed_items_exec(
    left: &Step,
    fast: bool,
    items: &Vec<(usize, Event)>,
    i: usize,
    cycle: u32,
    a: u64,
    b: u64,
    d: u64,
    draws: &Vec<u64>,
    limit: usize,
    acc: Vec<Vec<Event>>,
    used: usize,
    count: usize,
    ov: bool,
) -> (r: Result<(Vec<Vec<Event>>, usize, usize), OutputError>)
    requires
        a <= b <= d,
        d >= 1,
        count <= limit,
        i <= items@.len(),
        acc@.len() >= 1,
    ensures
        played(r) == speed_items(
            left.model(),
            fast,
            item_models(items@),
            i as int,
            cycle as int,
            a as int,
            b as int,
            d as int,
            draws@,
            limit as int,
            channel_models(acc@),
            used as int,
            count as int,
            ov,
        ),
        r matches Ok((chs, _, c)) ==> c <= limit && chs@.len() >= 1,
    decreases left, 0x4_0000_0000 + items@.len() - i,
{
    if i >= items.len() {
        return Ok((acc, used, count));
    }
    let k = items[i].0;
    let e = &items[i].1;
    let ghost em = e.model();
    assert(item_models(items@)[i as int] == (k as int, em));
    let r = match value_ratio_exec(&e.value) {
        Some((p, q)) => {
            if p <= 0 {
                Ok((one_empty_channel(), used, count))
            } else if fast {
                windowed_exec(left, cycle, p as u128, q as u128, a, b, d, draws, limit, used, count, ov)
            } else {
                windowed_exec(left, cycle, q as u128, p as u128, a, b, d, draws, limit, used, count, ov)
            }
        },
        None => Err(OutputError::Unsupported),
    };
    match r {
        Ok((chs, u, c)) => {
            if k > acc.len() {
                return Err(OutputError::Unsupported);
            }
            let cropped = crop_channels_exec(chs, e.start, e.end, ov);
            let mut acc = acc;
            add_channels_exec(&mut acc, cropped, k);
            speed_items_exec(left, fast, items, i + 1, cycle, a, b, d, draws, limit, acc, u, c, ov)
        },
        Err(err) => Err(err),
    }
}

fn decimal_parts(t: &String) -> (r: Option<(u128, u128)>)
    ensures
        match r {
            Some((p, q)) => decimal_ratio(t@) == Some((p as int, q as int)) && p
                < 10_000_000_000_000_000_000 && 1 <= q <= 10_000_000_000_000_000_000,
            None => decimal_ratio(t@) is None,
        },
{
    let w = crate::text::chars_of(t.as_str());
    if w.len() > 19 {
        return None;
    }
    let mut val: u128 = 0;
    let mut fl: u128 = 0;
    let mut pw: u128 = 1;
    let mut i: usize = 0;
    proof {
        lemma_pow10_values();
        assert(w@.take(0) =~= Seq::<char>::empty());
    }
    while i < w.len()
        invariant
            w@ == t@,
            w@.len() <= 19,
            i <= w@.len(),
            forall|j: int| 0 <= j < i ==> is_digit(w@[j]) || w@[j] == '.',
            val == digits_value(w@.take(i as int)),
            fl == fraction_len(w@.take(i as int)),
            pw == pow10(fl as nat),
            val < pow10(i as nat),
            fl <= i,
            pow10(19) == 10_000_000_000_000_000_000,
        decreases w@.len() - i,
    {
        proof {
            assert(w@.take(i + 1).drop_last() =~= w@.take(i as int));
            lemma_pow10_monotone(i as nat, 18);
            lemma_pow10_monotone(fl as nat, i as nat);
        }
        let c = w[i];
        if c == '.' {
            fl = 0;
            pw = 1;
        } else if '0' <= c && c <= '9' {
            let dv = (c as u32 - '0' as u32) as u128;
            assert(dv == digit_value(c));
            val = val * 10 + dv;
            fl = fl + 1;
            pw = pw * 10;
        } else {
            assert(!(is_digit(w@[i as int]) || w@[i as int] == '.'));
            return None;
        }
        i = i + 1;
    }
    proof {
        assert(w@.take(w@.len() as int) =~= w@);
        lemma_pow10_monotone(fl as nat, 19);
        lemma_pow10_monotone(w@.len() as nat, 19);
    }
    Some((val, pw))
}

fn play_decimal_exec(
    l: &Box<Step>,
    r: &Box<Step>,
    fast: bool,
    cycle: u32,
    a: u64,
    b: u64,
    d: u64,
    draws: &Vec<u64>,
    limit: usize,
    used: usize,
    count: usize,
    ov: bool,
) -> (res: Result<(Vec<Vec<Event>>, usize, usize), OutputError>)
    requires
        a <= b <= d,
        d >= 1,
        count <= limit,
    ensures
        played(res) == decimal_speed(
            l.model(),
            r.model(),
            fast,
            cycle as int,
            a as int,
            b as int,
            d as int,
            draws@,
            limit as int,
            used as int,
            count as int,
            ov,
        ),
        res matches Ok((chs, _, c)) ==> c <= limit && chs@.len() >= 1,
    decreases l, 0x3_0000_0000int,
{
    match &**r {
        Step::Single(v, _) => match number_text_exec(v) {
            Some(t) => {
                let w = crate::text::chars_of(t.as_str());
                if w.len() > 0 && w[0] == '-' {
                    return Ok((one_empty_channel(), used, count));
                }
                match decimal_parts(t) {
                    Some((p, q)) => {
                        if p == 0 {
                            Ok((one_empty_channel(), used, count))
                        } else if fast {
                            windowed_exec(l, cycle, p, q, a, b, d, draws, limit, used, count, ov)
                        } else {
                            windowed_exec(l, cycle, q, p, a, b, d, draws, limit, used, count, ov)
                        }
                    },
                    None => Err(OutputError::Unsupported),
                }
            },
            None => Err(OutputError::Unsupported),
        },
        _ => Err(OutputError::Unsupported),
    }
}

fn windowed_exec(
    left: &Step,
    cycle: u32,
    p: u128,
    q: u128,
    a: u64,
    b: u64,
    d: u64,
    draws: &Vec<u64>,
    limit: usize,
    used: usize,
    count: usize,
    ov: bool,
) -> (res: Result<(Vec<Vec<Event>>, usize, usize), OutputError>)
    requires
        a <= b <= d,
        d >= 1,
        count <= limit,
        p <= 10_000_000_000_000_000_000,
        q <= 10_000_000_000_000_000_000,
    ensures
        played(res) == windowed(
            left.model(),
            cycle as int,
            p as int,
            q as int,
            a as int,
            b as int,
            d as int,
            draws@,
            limit as int,
            used as int,
            count as int,
            ov,
        ),
        res matches Ok((chs, _, c)) ==> c <= limit && chs@.len() >= 1,
    decreases left, 0x2_0000_0000int,
{
    if !(1 <= p && p <= 0x8000_0000 && 1 <= q && q <= 0x8000_0000) {
        return Err(OutputError::Unsupported);
    }
    proof {
        assert(cycle * p <= 0xFFFF_FFFFint * 0x8000_0000int) by (nonlinear_arith)
            requires
                cycle <= 0xFFFF_FFFFint,
                p <= 0x8000_0000int,
                0 <= p,
        ;
        assert((cycle + 1) * p <= 0x1_0000_0000int * 0x8000_0000int) by (nonlinear_arith)
            requires
                cycle <= 0xFFFF_FFFFint,
                p <= 0x8000_0000int,
                0 <= p,
        ;
    }
    let first = ((cycle as u128) * p) / q;
    let end = (((cycle as u128) + 1) * p + q - 1) / q;
    proof {
        assert(first <= end) by (nonlinear_arith)
            requires
                first == (cycle * p) / (q as int),
                end == ((cycle + 1) * p + q - 1) / (q as int),
                q >= 1,
                p >= 0,
                cycle >= 0,
        ;
    }
    if end > 0x1_0000_0000 {
        return Err(OutputError::Overflow);
    }
    play_window_exec(
        left,
        first as u64,
        end as u64,
        cycle,
        p as u64,
        q as u64,
        a,
        b,
        d,
        draws,
        limit,
        one_empty_channel(),
        used,
        count,
        ov,
    )
}

fn play_window_exec(
    left: &Step,
    j: u64,
    end: u64,
    cycle: u32,
    p: u64,
    q: u64,
    a: u64,
    b: u64,
    d: u64,
    draws: &Vec<u64>,
    limit: usize,
    acc: Vec<Vec<Event>>,
    used: usize,
    count: usize,
    ov: bool,
) -> (r: Result<(Vec<Vec<Event>>, usize, usize), OutputError>)
    requires
        a <= b <= d,
        d >= 1,
        1 <= p <= 0x8000_0000,
        1 <= q <= 0x8000_0000,
        end <= 0x1_0000_0000,
        count <= limit,
        acc@.len() >= 1,
    ensures
        played(r) == play_window(
            left.model(),
            j as int,
            end as int,
            cycle as int,
            p as int,
            q as int,
            a as int,
            b as int,
            d as int,
            draws@,
            limit as int,
            channel_models(acc@),
            used as int,
            count as int,
            ov,
        ),
        r matches Ok((chs, _, c)) ==> c <= limit && chs@.len() >= 1,
    decreases left, end - j + 1,
{
    if j >= end {
        return Ok((acc, used, count));
    }
    match play_exec(left, j as u32, 0, 1, 1, draws, limit, used, count, ov) {
        Ok((chs, u, e)) => match window_channels_exec(chs, j, p, q, cycle as u64, a, b, d, ov) {
            Some(w) => {
                let mut acc = acc;
                add_channels_exec(&mut acc, w, 0);
                play_window_exec(left, j + 1, end, cycle, p, q, a, b, d, draws, limit, acc, u, e, ov)
            },
            None => Err(OutputError::Overflow),
        },
        Err(err) => Err(err),
    }
}

fn play_cycles_exec(
    ch: &Vec<Step>,
    j: u64,
    end: u64,
    cycle: u32,
    p: u64,
    q: u64,
    a: u64,
    b: u64,
    d: u64,
    draws: &Vec<u64>,
    limit: usize,
    acc: Vec<Vec<Event>>,
    used: usize,
    count: usize,
    ov: bool,
) -> (r: Result<(Vec<Vec<Event>>, usize, usize), OutputError>)
    requires
        a <= b <= d,
        d >= 1,
        1 <= p <= 0x8000_0000,
        1 <= q <= 0x8000_0000,
        1 <= ch@.len(),
        end <= 0x1_0000_0000,
        count <= limit,
        acc@.len() >= 1,
    ensures
        played(r) == play_cycles(
            child_models(ch),
            j as int,
            end as int,
            cycle as int,
            p as int,
            q as int,
            a as int,
            b as int,
            d as int,
            draws@,
            limit as int,
            channel_models(acc@),
            used as int,
            count as int,
            ov,
        ),
        r matches Ok((chs, _, c)) ==> c <= limit && chs@.len() >= 1,
    decreases ch, end - j + ch@.len(),
{
    if j >= end {
        return Ok((acc, used, count));
    }
    assert(child_models(ch).len() == ch@.len());
    match play_parts_exec(ch, 0, j as u32, 0, 1, 1, draws, limit, one_empty_channel(), used, count, ov) {
        Ok((chs, u, e)) => match window_channels_exec(chs, j, p, q, cycle as u64, a, b, d, ov) {
            Some(w) => {
                let mut acc = acc;
                add_channels_exec(&mut acc, w, 0);
                play_cycles_exec(ch, j + 1, end, cycle, p, q, a, b, d, draws, limit, acc, u, e, ov)
            },
            None => Err(OutputError::Overflow),
        },
        Err(err) => Err(err),
    }
}

fn play_fast_exec(
    left: &Step,
    n: u64,
    k: u64,
    cycle: u32,
    a: u64,
    b: u64,
    d: u64,
    draws: &Vec<u64>,
    limit: usize,
    acc: Vec<Vec<Event>>,
    used: usize,
    count: usize,
    ov: bool,
) -> (r: Result<(Vec<Vec<Event>>, usize, usize), OutputError>)
    requires
        a <= b <= d,
        d >= 1,
        k <= n,
        d * n <= u64::MAX,
        cycle * n + n - 1 <= u32::MAX,
        count <= limit,
        acc@.len() >= 1,
    ensures
        played(r) == play_fast(
            left.model(),
            n as int,
            k as int,
            cycle as int,
            a as int,
            b as int,
            d as int,
            draws@,
            limit as int,
            channel_models(acc@),
            used as int,
            count as int,
            ov,
        ),
        r matches Ok((chs, _, c)) ==> c <= limit && chs@.len() >= 1,
    decreases left, n - k,
{
    if k >= n {
        return Ok((acc, used, count));
    }
    let (s, e, dn) = part_bounds(a, b, d, n, k);
    proof {
        assert(cycle * n + k <= cycle * n + n - 1);
    }
    let c = ((cycle as u64) * n + k) as u32;
    match play_exec(left, c, s, e, dn, draws, limit, used, count, ov) {
        Ok((chs, u, cnt)) => {
            let mut acc = acc;
            add_channels_exec(&mut acc, chs, 0);
            play_fast_exec(left, n, k + 1, cycle, a, b, d, draws, limit, acc, u, cnt, ov)
        },
        Err(err) => Err(err),
    }
}

fn play_pulses_exec(
    left: &Step,
    pattern: &Vec<bool>,
    k: usize,
    cycle: u32,
    a: u64,
    b: u64,
    d: u64,
    draws: &Vec<u64>,
    limit: usize,
    used: usize,
    count: usize,
    acc: Vec<Vec<Event>>,
    ov: bool,
) -> (r: Result<Vec<Vec<Event>>, OutputError>)
    requires
        a <= b <= d,
        d >= 1,
        k <= pattern@.len(),
        d * pattern@.len() <= u64::MAX,
        count <= limit,
        acc@.len() >= 1,
    ensures
        match r {
            Ok(chs) => play_pulses(
                left.model(),
                pattern@,
                k as int,
                cycle as int,
                a as int,
                b as int,
                d as int,
                draws@,
                limit as int,
                used as int,
                count as int,
                channel_models(acc@),
                ov,
            ) == Ok::<Seq<Seq<EventModel>>, OutputError>(channel_models(chs@)) && chs@.len() >= 1,
            Err(e) => play_pulses(
                left.model(),
                pattern@,
                k as int,
                cycle as int,
                a as int,
                b as int,
                d as int,
                draws@,
                limit as int,
                used as int,
                count as int,
                channel_models(acc@),
                ov,
            ) == Err::<Seq<Seq<EventModel>>, OutputError>(e),
        },
    decreases left, pattern@.len() - k,
{
    if k >= pattern.len() {
        return Ok(acc);
    }
    let n = pattern.len() as u64;
    let (s, e, dn) = part_bounds(a, b, d, n, k as u64);
    let mut acc = acc;
    if pattern[k] {
        match play_exec(left, cycle, s, e, dn, draws, limit, used, count, ov) {
            Ok((c, _, _)) => {
                add_channels_exec(&mut acc, c, 0);
            },
            Err(err) => {
                return Err(err);
            },
        }
    } else {
        add_channels_exec(&mut acc, one_event(rest_event_exec(s, e, dn)), 0);
    }
    play_pulses_exec(left, pattern, k + 1, cycle, a, b, d, draws, limit, used, count, acc, ov)
}

// ---------------------------------------------------------------------------------------------
// Cycle numbers

/// Whether the steps that a step tree plays hold no alternation, no polymeter and no sped
/// up or slowed down step, the steps whose events depend on the cycle number.
pub open spec fn plays_alike(st: StepModel) -> bool
    decreases st,
{
    match st {
        StepModel::Alternating(_) => false,
        StepModel::Fast(_, _) => false,
        StepModel::Slow(_, _) => false,
        StepModel::Polymeter(_, _) => false,
        StepModel::Subdivision(ch) => forall|i: int| 0 <= i < ch.len() ==> plays_alike(ch[i]),
        StepModel::Stack(ch) => forall|i: int| 0 <= i < ch.len() ==> plays_alike(ch[i]),
        StepModel::Choices(ch) => forall|i: int| 0 <= i < ch.len() ==> plays_alike(ch[i]),
        StepModel::Bjorklund(l, _, _, _) => plays_alike(*l),
        StepModel::Target(l, r) => plays_alike(*l) && plays_alike(*r),
        StepModel::Degrade(l, _) => plays_alike(*l),
        _ => true,
    }
}

/// A step tree without alternations, polymeters and sped up or slowed down steps plays the
/// same events, with the same
/// draws used and events counted, in every cycle.
pub proof fn lemma_plays_alike_in_every_cycle(
    st: StepModel,
    c1: int,
    c2: int,
    a: int,
    b: int,
    d: int,
    draws: Seq<u64>,
    limit: int,
    used: int,
    count: int,
    ov: bool,
)
    requires
        plays_alike(st),
    ensures
        play(st, c1, a, b, d, draws, limit, used, count, ov) == play(
            st,
            c2,
            a,
            b,
            d,
            draws,
            limit,
            used,
            count,
            ov,
        ),
    decreases st, 0int,
{
    match st {
        StepModel::Subdivision(ch) => {
            if ch.len() > 0 && d * ch.len() <= u64::MAX {
                lemma_parts_alike(
                    ch,
                    0,
                    c1,
                    c2,
                    a,
                    b,
                    d,
                    draws,
                    limit,
                    seq![Seq::empty()],
                    used,
                    count,
                    ov,
                );
            }
        },
        StepModel::Stack(ch) => {
            if ch.len() > 0 {
                lemma_stacked_alike(
                    ch,
                    0,
                    c1,
                    c2,
                    a,
                    b,
                    d,
                    draws,
                    limit,
                    Seq::empty(),
                    used,
                    count,
                    ov,
                );
            }
        },
        StepModel::Choices(ch) => {
            if ch.len() > 0 && 0 <= used < draws.len() {
                let k = (draws[used] as int) % (ch.len() as int);
                if 0 <= k < ch.len() {
                    lemma_plays_alike_in_every_cycle(
                        ch[k],
                        c1,
                        c2,
                        a,
                        b,
                        d,
                        draws,
                        limit,
                        used + 1,
                        count,
                        ov,
                    );
                }
            }
        },
        StepModel::Target(l, r) => {
            lemma_plays_alike_in_every_cycle(*l, c1, c2, a, b, d, draws, limit, used, count, ov);
            lemma_plays_alike_in_every_cycle(*l, c1, c2, a, b, d, draws, limit, used, count, true);
            match play(*l, c1, a, b, d, draws, limit, used, count, true) {
                Ok((_, u, c)) => {
                    lemma_plays_alike_in_every_cycle(*r, c1, c2, a, b, d, draws, limit, u, c, true);
                },
                Err(_) => {},
            }
        },
        StepModel::Degrade(l, _) => {
            lemma_plays_alike_in_every_cycle(*l, c1, c2, a, b, d, draws, limit, used, count, ov);
        },
        StepModel::Bjorklund(l, s, p, r) => {
            lemma_plays_alike_in_every_cycle(*l, c1, c2, 0, 1, 1, draws, limit, used, count, ov);
            match (step_integer(*s), step_integer(*p)) {
                (Some(sv), Some(pv)) => {
                    let pulses = if sv > 0 { sv } else { 0 };
                    let steps = if pv > 0 { pv } else { 0 };
                    let rot = match r {
                        Some(rs) => match step_integer(*rs) {
                            Some(x) => x,
                            None => 0,
                        },
                        None => 0,
                    };
                    let pattern = spec_euclidean(pulses as u32, steps as u32, rot as i32);
                    lemma_pulses_alike(
                        *l,
                        pattern,
                        0,
                        c1,
                        c2,
                        a,
                        b,
                        d,
                        draws,
                        limit,
                        used,
                        count,
                        seq![Seq::empty()],
                        ov,
                    );
                },
                _ => {},
            }
        },
        _ => {},
    }
}

proof fn lemma_parts_alike(
    ch: Seq<StepModel>,
    k: int,
    c1: int,
    c2: int,
    a: int,
    b: int,
    d: int,
    draws: Seq<u64>,
    limit: int,
    acc: Seq<Seq<EventModel>>,
    used: int,
    count: int,
    ov: bool,
)
    requires
        forall|i: int| 0 <= i < ch.len() ==> plays_alike(ch[i]),
    ensures
        play_parts(ch, k, c1, a, b, d, draws, limit, acc, used, count, ov) == play_parts(
            ch,
            k,
            c2,
            a,
            b,
            d,
            draws,
            limit,
            acc,
            used,
            count,
            ov,
        ),
    decreases ch, ch.len() - k,
{
    if 0 <= k < ch.len() {
        let n = ch.len() as int;
        lemma_plays_alike_in_every_cycle(
            ch[k],
            c1,
            c2,
            part_start(a, b, n, k),
            part_start(a, b, n, k + 1),
            d * n,
            draws,
            limit,
            used,
            count,
            ov,
        );
        let s = part_start(a, b, n, k);
        let e = part_start(a, b, n, k + 1);
        match play(ch[k], c1, s, e, d * n, draws, limit, used, count, ov) {
            Ok((c, u, e)) => {
                lemma_parts_alike(
                    ch,
                    k + 1,
                    c1,
                    c2,
                    a,
                    b,
                    d,
                    draws,
                    limit,
                    add_channels(acc, c, 0),
                    u,
                    e,
                    ov,
                );
            },
            Err(_) => {},
        }
    }
}

proof fn lemma_stacked_alike(
    ch: Seq<StepModel>,
    k: int,
    c1: int,
    c2: int,
    a: int,
    b: int,
    d: int,
    draws: Seq<u64>,
    limit: int,
    acc: Seq<Seq<EventModel>>,
    used: int,
    count: int,
    ov: bool,
)
    requires
        forall|i: int| 0 <= i < ch.len() ==> plays_alike(ch[i]),
    ensures
        play_stacked(ch, k, c1, a, b, d, draws, limit, acc, used, count, ov) == play_stacked(
            ch,
            k,
            c2,
            a,
            b,
            d,
            draws,
            limit,
            acc,
            used,
            count,
            ov,
        ),
    decreases ch, ch.len() - k,
{
    if 0 <= k < ch.len() {
        lemma_plays_alike_in_every_cycle(ch[k], c1, c2, a, b, d, draws, limit, used, count, ov);
        match play(ch[k], c1, a, b, d, draws, limit, used, count, ov) {
            Ok((c, u, e)) => {
                lemma_stacked_alike(
                    ch,
                    k + 1,
                    c1,
                    c2,
                    a,
                    b,
                    d,
                    draws,
                    limit,
                    add_channels(acc, c, k),
                    u,
                    e,
                    ov,
                );
            },
            Err(_) => {},
        }
    }
}

proof fn lemma_pulses_alike(
    left: StepModel,
    pattern: Seq<bool>,
    k: int,
    c1: int,
    c2: int,
    a: int,
    b: int,
    d: int,
    draws: Seq<u64>,
    limit: int,
    used: int,
    count: int,
    acc: Seq<Seq<EventModel>>,
    ov: bool,
)
    requires
        plays_alike(left),
    ensures
        play_pulses(left, pattern, k, c1, a, b, d, draws, limit, used, count, acc, ov) == play_pulses(
            left,
            pattern,
            k,
            c2,
            a,
            b,
            d,
            draws,
            limit,
            used,
            count,
            acc,
            ov,
        ),
    decreases left, pattern.len() - k,
{
    if 0 <= k < pattern.len() {
        let n = pattern.len() as int;
        let s = part_start(a, b, n, k);
        let e = part_start(a, b, n, k + 1);
        if pattern[k] {
            lemma_plays_alike_in_every_cycle(left, c1, c2, s, e, d * n, draws, limit, used, count, ov);
            match play(left, c1, s, e, d * n, draws, limit, used, count, ov) {
                Ok((c, _, _)) => {
                    lemma_pulses_alike(
                        left,
                        pattern,
                        k + 1,
                        c1,
                        c2,
                        a,
                        b,
                        d,
                        draws,
                        limit,
                        used,
                        count,
                        add_channels(acc, c, 0),
                        ov,
                    );
                },
                Err(_) => {},
            }
        } else {
            lemma_pulses_alike(
                left,
                pattern,
                k + 1,
                c1,
                c2,
                a,
                b,
                d,
                draws,
                limit,
                used,
                count,
                add_channels(acc, seq![seq![rest_event(s, e, d * n)]], 0),
                ov,
            );
        }
    }
}

// ---------------------------------------------------------------------------------------------
// Holds and rests

/// The event `e` extended to the end of `next`.
pub open spec fn extended(e: EventModel, next: EventModel) -> EventModel {
    EventModel {
        value: e.value,
        text: e.text,
        targets: e.targets,
        start: e.start,
        end: next.end,
    }
}

/// The events with each hold merged into the event before it: that event is extended to the
/// hold's end. A hold with no event before it is dropped.
pub open spec fn merge_holds(evs: Seq<EventModel>) -> Seq<EventModel>
    decreases evs.len(),
{
    if evs.len() == 0 {
        Seq::empty()
    } else {
        let r = merge_holds(evs.drop_last());
        let e = evs.last();
        if e.value is Hold {
            if r.len() > 0 {
                r.update(r.len() - 1, extended(r.last(), e))
            } else {
                r
            }
        } else {
            r.push(e)
        }
    }
}

/// The events with each run of rests merged into its first rest, and rests at the start
/// dropped.
pub open spec fn merge_rests(evs: Seq<EventModel>) -> Seq<EventModel>
    decreases evs.len(),
{
    if evs.len() == 0 {
        Seq::empty()
    } else {
        let r = merge_rests(evs.drop_last());
        let e = evs.last();
        if e.value is Rest {
            if r.len() > 0 {
                if r.last().value is Rest {
                    r.update(r.len() - 1, extended(r.last(), e))
                } else {
                    r.push(e)
                }
            } else {
                r
            }
        } else {
            r.push(e)
        }
    }
}

/// The events of a cycle: the channels that `play` gives over the whole cycle, with holds
/// and then rests merged on each channel.
pub open spec fn spec_cycle_output(
    step: StepModel,
    cycle: int,
    draws: Seq<u64>,
    limit: int,
) -> Result<Seq<Seq<EventModel>>, OutputError> {
    match play(step, cycle, 0, 1, 1, draws, limit, 0, 0, false) {
        Ok((chs, _, _)) => Ok(merged_channels(chs)),
        Err(e) => Err(e),
    }
}

/// A step tree without alternations, polymeters and sped up or slowed down steps gives the
/// same events in every
/// cycle, for the same draws and event limit.
pub proof fn lemma_cycle_output_alike(st: StepModel, c1: int, c2: int, draws: Seq<u64>, limit: int)
    requires
        plays_alike(st),
    ensures
        spec_cycle_output(st, c1, draws, limit) == spec_cycle_output(st, c2, draws, limit),
{
    lemma_plays_alike_in_every_cycle(st, c1, c2, 0, 1, 1, draws, limit, 0, 0, false);
}

fn is_hold(v: &Value) -> (r: bool)
    ensures
        r == (v.model() is Hold),
{
    match v {
        Value::Hold => true,
        _ => false,
    }
}

fn is_rest(v: &Value) -> (r: bool)
    ensures
        r == (v.model() is Rest),
{
    match v {
        Value::Rest => true,
        _ => false,
    }
}

/// Merges the holds (for `holds`) or else the rests of one channel.
fn merge_channel(evs: Vec<Event>, holds: bool) -> (r: Vec<Event>)
    ensures
        holds ==> event_models(r@) == merge_holds(event_models(evs@)),
        !holds ==> event_models(r@) == merge_rests(event_models(evs@)),
{
    let ghost m = event_models(evs@);
    let mut evs = evs;
    let mut rev: Vec<Event> = Vec::new();
    // take the events off the end, to walk them from the front
    while evs.len() > 0
        invariant
            evs@.len() + rev@.len() == m.len(),
            forall|i: int| 0 <= i < evs@.len() ==> #[trigger] evs@[i].model() == m[i],
            forall|i: int|
                0 <= i < rev@.len() ==> #[trigger] rev@[i].model() == m[m.len() - 1 - i],
        decreases evs@.len(),
    {
        let e = evs.pop().unwrap();
        rev.push(e);
    }
    let mut r: Vec<Event> = Vec::new();
    let mut i: usize = 0;
    let n = rev.len();
    assert(m.take(0) =~= Seq::<EventModel>::empty());
    assert(event_models(r@) =~= Seq::<EventModel>::empty());
    while rev.len() > 0
        invariant
            n == m.len(),
            i + rev@.len() == n,
            forall|j: int| 0 <= j < rev@.len() ==> #[trigger] rev@[j].model() == m[n - 1 - j],
            holds ==> event_models(r@) == merge_holds(m.take(i as int)),
            !holds ==> event_models(r@) == merge_rests(m.take(i as int)),
        decreases rev@.len(),
    {
        let e = rev.pop().unwrap();
        let ghost em = e.model();
        assert(em == m[i as int]);
        assert(m.take(i + 1).drop_last() =~= m.take(i as int));
        assert(m.take(i + 1).last() == em);
        let ghost before = event_models(r@);
        let hit = if holds {
            is_hold(&e.value)
        } else {
            is_rest(&e.value)
        };
        if hit {
            if r.len() > 0 {
                let last_index = r.len() - 1;
                let extend = if holds {
                    true
                } else {
                    is_rest(&r[last_index].value)
                };
                if extend {
                    let mut last = r.pop().unwrap();
                    last.end = e.end;
                    r.push(last);
                    assert(event_models(r@) =~= before.update(
                        before.len() - 1,
                        extended(before.last(), em),
                    ));
                } else {
                    r.push(e);
                    assert(event_models(r@) =~= before.push(em));
                }
            }
        } else {
            r.push(e);
            assert(event_models(r@) =~= before.push(em));
        }
        i = i + 1;
    }
    assert(m.take(n as int) =~= m);
    r
}

/// The events of `step` in cycle number `cycle`: the events of each channel, their spans
/// fractions of the cycle, with holds merged into the event before them and runs of rests
/// into one (rests at a channel's start dropped). Draws are used in the order in which
/// choices and degraded events are met: a choice picks the choice `draw % n`, `n` its
/// number of choices, a degraded event becomes a rest when its chance is below
/// `draw / 2^64`.
///
/// Fails with `EventLimit` when more than `limit` single steps play, `MissingDraw` when a
/// choice or a degraded event is met after all draws were used, `Overflow` when a span's denominator leaves
/// the `u64` range or a cycle number the `u32` range, and `Unsupported` for target
/// expressions and factors made of several steps, polymeter counts with a decimal point,
/// windows over steps whose events take several channels, factors, counts and chances
/// beyond the limits above `2^31` or 19 characters, and a euclidean rhythm without pulses
/// over two or more steps.
pub fn cycle_output(step: &Step, cycle: u32, draws: &Vec<u64>, limit: usize) -> (r: Result<
    Vec<Vec<Event>>,
    OutputError,
>)
    ensures
        match r {
            Ok(chs) => spec_cycle_output(step.model(), cycle as int, draws@, limit as int) == Ok::<
                Seq<Seq<EventModel>>,
                OutputError,
            >(channel_models(chs@)),
            Err(e) => spec_cycle_output(step.model(), cycle as int, draws@, limit as int) == Err::<
                Seq<Seq<EventModel>>,
                OutputError,
            >(e),
        },
{
    match play_exec(step, cycle, 0, 1, 1, draws, limit, 0, 0, false) {
        Ok((chs, _, _)) => Ok(merge_all(chs)),
        Err(e) => Err(e),
    }
}

// ---------------------------------------------------------------------------------------------
// Seeded draws

/// The first `count` numbers of the generator that `seed` starts.
pub uninterp spec fn seeded_draw_seq(seed: u64, count: usize) -> Seq<u64>;

/// The first `count` results of `next_u64` of `rand_xoshiro`'s `Xoshiro256PlusPlus` made by
/// `seed_from_u64(seed)`. The crate seeds the generator's state from the seed alone
/// (SplitMix64) and each result is a fixed function of that state, so the numbers are named
/// by `seeded_draw_seq`; there are `count` of them. Which numbers they are is not stated.
#[verifier::external_body]
fn seeded_draws(seed: u64, count: usize) -> (r: Vec<u64>)
    ensures
        r@ == seeded_draw_seq(seed, count),
        r@.len() == count,
{
    let mut rng = Xoshiro256PlusPlus::seed_from_u64(seed);
    let mut r = Vec::with_capacity(count);
    for _ in 0..count {
        r.push(rng.next_u64());
    }
    r
}

/// The most draws that `seeded_output` hands out for one cycle.
pub const DRAWS_MAX: usize = 0x10_0000;

/// Twice `n`, at most `DRAWS_MAX`.
pub open spec fn next_count(n: usize) -> usize {
    if 2 * n > DRAWS_MAX {
        DRAWS_MAX
    } else {
        (2 * n) as usize
    }
}

/// The events of `step` in `cycle` from the draws of the generator that `seed` starts: the
/// first `n` draws, twice as many while they run out, up to `DRAWS_MAX` of them.
pub open spec fn spec_seeded_output(
    step: StepModel,
    cycle: int,
    seed: u64,
    limit: int,
    n: usize,
) -> Result<Seq<Seq<EventModel>>, OutputError>
    decreases DRAWS_MAX - n,
{
    let r = spec_cycle_output(step, cycle, seeded_draw_seq(seed, n), limit);
    if 1 <= n < DRAWS_MAX && r == Err::<Seq<Seq<EventModel>>, OutputError>(
        OutputError::MissingDraw,
    ) {
        spec_seeded_output(step, cycle, seed, limit, next_count(n))
    } else {
        r
    }
}

/// The events of `step` in `cycle`, with the draws of the generator that `seed` starts, see
/// `spec_seeded_output`: first 64 of them.
pub fn seeded_output(step: &Step, cycle: u32, seed: u64, limit: usize) -> (r: Result<
    Vec<Vec<Event>>,
    OutputError,
>)
    ensures
        match r {
            Ok(chs) => spec_seeded_output(step.model(), cycle as int, seed, limit as int, 64)
                == Ok::<Seq<Seq<EventModel>>, OutputError>(channel_models(chs@)),
            Err(e) => spec_seeded_output(step.model(), cycle as int, seed, limit as int, 64)
                == Err::<Seq<Seq<EventModel>>, OutputError>(e),
        },
{
    let mut n: usize = 64;
    loop
        invariant
            1 <= n <= DRAWS_MAX,
            spec_seeded_output(step.model(), cycle as int, seed, limit as int, 64)
                == spec_seeded_output(step.model(), cycle as int, seed, limit as int, n),
        decreases DRAWS_MAX - n,
    {
        let draws = seeded_draws(seed, n);
        let r = cycle_output(step, cycle, &draws, limit);
        match r {
            Err(OutputError::MissingDraw) => {
                if n >= DRAWS_MAX {
                    return r;
                }
                n = if n > DRAWS_MAX / 2 {
                    DRAWS_MAX
                } else {
                    n * 2
                };
            },
            _ => {
                return r;
            },
        }
    }
}

} // verus!
