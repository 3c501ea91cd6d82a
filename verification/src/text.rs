//! Character level helpers shared by the note, chord and scale parsers: decimal integer
//! reading and writing, ASCII case folding and character predicates.

use vstd::prelude::*;
use vstd::string::StrSliceExecFns;
use vstd::string::StringExecFns;

verus! {

/// Characters of a string slice, as a vector.
pub fn chars_of(s: &str) -> (r: Vec<char>)
    ensures
        r@ == s@,
{
    let n = s.unicode_len();
    let mut r: Vec<char> = Vec::new();
    let mut i: usize = 0;
    while i < n
        invariant
            n == s@.len(),
            i <= n,
            r@ == s@.subrange(0, i as int),
        decreases n - i,
    {
        let c = s.get_char(i);
        r.push(c);
        i = i + 1;
    }
    r
}

/// A new string holding the characters of `s`.
pub fn string_of(s: &str) -> (r: String)
    ensures
        r@ == s@,
{
    String::from_str(s)
}

// ---------------------------------------------------------------------------------------------
// ASCII case folding

/// Unicode code of `c` after ASCII lower casing: 'A'..='Z' map to 'a'..='z', all else stays.
pub open spec fn lower_code(c: char) -> int {
    if 65 <= (c as int) <= 90 {
        (c as int) + 32
    } else {
        c as int
    }
}

/// Two characters are equal when ASCII case is ignored.
pub open spec fn char_eq_ignore_case(a: char, b: char) -> bool {
    lower_code(a) == lower_code(b)
}

/// Two character sequences are equal when ASCII case is ignored.
pub open spec fn eq_ignore_case(a: Seq<char>, b: Seq<char>) -> bool {
    &&& a.len() == b.len()
    &&& forall|i: int| 0 <= i < a.len() ==> #[trigger] lower_code(a[i]) == lower_code(b[i])
}

/// The code of `c` after ASCII lower casing, see `lower_code`.
pub fn lower_code_of(c: char) -> (r: u32)
    ensures
        r == lower_code(c),
{
    let v = c as u32;
    if 65 <= v && v <= 90 {
        v + 32
    } else {
        v
    }
}

/// Whether two characters are equal when ASCII case is ignored.
pub fn char_eq_ignore_case_exec(a: char, b: char) -> (r: bool)
    ensures
        r == char_eq_ignore_case(a, b),
{
    lower_code_of(a) == lower_code_of(b)
}

/// Compares `a[from..to]` with `b`, ignoring ASCII case.
pub fn range_eq_ignore_case(a: &Vec<char>, from: usize, to: usize, b: &Vec<char>) -> (r: bool)
    requires
        from <= to <= a@.len(),
    ensures
        r == eq_ignore_case(a@.subrange(from as int, to as int), b@),
{
    if to - from != b.len() {
        return false;
    }
    let mut i: usize = 0;
    while i < b.len()
        invariant
            from <= to <= a@.len(),
            to - from == b@.len(),
            i <= b@.len(),
            forall|k: int|
                0 <= k < i ==> #[trigger] lower_code(a@[from + k]) == lower_code(b@[k]),
        decreases b@.len() - i,
    {
        if !char_eq_ignore_case_exec(a[from + i], b[i]) {
            assert(lower_code(a@.subrange(from as int, to as int)[i as int]) != lower_code(
                b@[i as int],
            ));
            return false;
        }
        i = i + 1;
    }
    assert forall|k: int| 0 <= k < b@.len() implies #[trigger] lower_code(
        a@.subrange(from as int, to as int)[k],
    ) == lower_code(b@[k]) by {
        assert(a@.subrange(from as int, to as int)[k] == a@[from + k]);
    }
    true
}

/// Compares two character vectors, ignoring ASCII case.
pub fn vec_eq_ignore_case(a: &Vec<char>, b: &Vec<char>) -> (r: bool)
    ensures
        r == eq_ignore_case(a@, b@),
{
    let r = range_eq_ignore_case(a, 0, a.len(), b);
    assert(a@.subrange(0, a@.len() as int) =~= a@);
    r
}

/// Exact equality of two character vectors.
pub fn vec_eq(a: &Vec<char>, b: &Vec<char>) -> (r: bool)
    ensures
        r == (a@ == b@),
{
    if a.len() != b.len() {
        return false;
    }
    let mut i: usize = 0;
    while i < a.len()
        invariant
            a@.len() == b@.len(),
            i <= a@.len(),
            forall|k: int| 0 <= k < i ==> a@[k] == b@[k],
        decreases a@.len() - i,
    {
        if a[i] != b[i] {
            return false;
        }
        i = i + 1;
    }
    assert(a@ =~= b@);
    true
}

/// Exact equality of two string slices.
pub fn str_eq(a: &str, b: &str) -> (r: bool)
    ensures
        r == (a@ == b@),
{
    let ca = chars_of(a);
    let cb = chars_of(b);
    vec_eq(&ca, &cb)
}

// ---------------------------------------------------------------------------------------------
// Decimal integers

/// Reasons for which a text does not denote an `i32` in decimal notation.
#[derive(Debug, Clone, Copy, PartialEq, Eq, Structural)]
pub enum IntErrorKind {
    Empty,
    InvalidDigit,
    PosOverflow,
    NegOverflow,
}

/// Whether `c` is a decimal digit.
pub open spec fn is_digit(c: char) -> bool {
    '0' <= c && c <= '9'
}

/// The value of the decimal digit `c`.
pub open spec fn digit_value(c: char) -> int {
    (c as int) - ('0' as int)
}

/// Reads the decimal digits `ds` after the already read value `acc`, from left to right.
/// A negative number accumulates by subtraction. The first offending character, or the first
/// digit after which the value leaves the `i32` range, decides the error.
pub open spec fn parse_digits(ds: Seq<char>, acc: int, neg: bool) -> Result<int, IntErrorKind>
    decreases ds.len(),
{
    if ds.len() == 0 {
        Ok(acc)
    } else if !is_digit(ds[0]) {
        Err(IntErrorKind::InvalidDigit)
    } else {
        let next = if neg {
            acc * 10 - digit_value(ds[0])
        } else {
            acc * 10 + digit_value(ds[0])
        };
        if next > i32::MAX {
            Err(IntErrorKind::PosOverflow)
        } else if next < i32::MIN {
            Err(IntErrorKind::NegOverflow)
        } else {
            parse_digits(ds.drop_first(), next, neg)
        }
    }
}

/// The `i32` that a text denotes: an optional `+` or `-` sign followed by decimal digits.
pub open spec fn spec_parse_i32(s: Seq<char>) -> Result<i32, IntErrorKind> {
    let digits = if s.len() == 0 {
        Err(IntErrorKind::Empty)
    } else if (s[0] == '+' || s[0] == '-') && s.len() == 1 {
        Err(IntErrorKind::InvalidDigit)
    } else if s[0] == '+' {
        parse_digits(s.drop_first(), 0, false)
    } else if s[0] == '-' {
        parse_digits(s.drop_first(), 0, true)
    } else {
        parse_digits(s, 0, false)
    };
    match digits {
        Ok(v) => Ok(v as i32),
        Err(e) => Err(e),
    }
}

proof fn lemma_parse_digits_range(ds: Seq<char>, acc: int, neg: bool)
    requires
        i32::MIN <= acc <= i32::MAX,
        neg ==> acc <= 0,
        !neg ==> acc >= 0,
    ensures
        parse_digits(ds, acc, neg) matches Ok(v) ==> i32::MIN <= v <= i32::MAX,
    decreases ds.len(),
{
    if ds.len() > 0 && is_digit(ds[0]) {
        let next = if neg {
            acc * 10 - digit_value(ds[0])
        } else {
            acc * 10 + digit_value(ds[0])
        };
        if i32::MIN <= next <= i32::MAX {
            lemma_parse_digits_range(ds.drop_first(), next, neg);
        }
    }
}

/// Reads `cs[start..]` as a decimal `i32`.
pub fn parse_i32(cs: &Vec<char>, start: usize) -> (r: Result<i32, IntErrorKind>)
    requires
        start <= cs@.len(),
    ensures
        r == spec_parse_i32(cs@.subrange(start as int, cs@.len() as int)),
{
    let n = cs.len();
    let ghost s = cs@.subrange(start as int, n as int);
    if start == n {
        return Err(IntErrorKind::Empty);
    }
    let c0 = cs[start];
    assert(s[0] == c0);
    if (c0 == '+' || c0 == '-') && start + 1 == n {
        return Err(IntErrorKind::InvalidDigit);
    }
    let neg = c0 == '-';
    let mut i: usize = if c0 == '+' || c0 == '-' {
        start + 1
    } else {
        start
    };
    let ghost ds = cs@.subrange(i as int, n as int);
    proof {
        if c0 == '+' || c0 == '-' {
            assert(ds =~= s.drop_first());
        } else {
            assert(ds =~= s);
        }
    }
    assert(spec_parse_i32(s) == match parse_digits(ds, 0, neg) {
        Ok(v) => Ok(v as i32),
        Err(e) => Err(e),
    });
    let mut acc: i64 = 0;
    while i < n
        invariant
            n == cs@.len(),
            s == cs@.subrange(start as int, n as int),
            spec_parse_i32(s) == match parse_digits(ds, 0, neg) {
                Ok(v) => Ok(v as i32),
                Err(e) => Err::<i32, IntErrorKind>(e),
            },
            start <= i <= n,
            i32::MIN <= acc <= i32::MAX,
            neg ==> acc <= 0,
            !neg ==> acc >= 0,
            parse_digits(ds, 0, neg) == parse_digits(
                cs@.subrange(i as int, n as int),
                acc as int,
                neg,
            ),
        decreases n - i,
    {
        let c = cs[i];
        let ghost rest = cs@.subrange(i as int, n as int);
        assert(rest[0] == c);
        if !(c >= '0' && c <= '9') {
            return Err(IntErrorKind::InvalidDigit);
        }
        let d = ((c as u32) - ('0' as u32)) as i64;
        let next = if neg {
            acc * 10 - d
        } else {
            acc * 10 + d
        };
        if next > 2147483647i64 {
            return Err(IntErrorKind::PosOverflow);
        }
        if next < -2147483648i64 {
            return Err(IntErrorKind::NegOverflow);
        }
        assert(rest.drop_first() =~= cs@.subrange(i + 1, n as int));
        acc = next;
        i = i + 1;
    }
    assert(cs@.subrange(n as int, n as int).len() == 0);
    Ok(acc as i32)
}

/// The text that describes an integer reading error.
pub open spec fn int_error_text(k: IntErrorKind) -> Seq<char> {
    match k {
        IntErrorKind::Empty => "cannot parse integer from empty string"@,
        IntErrorKind::InvalidDigit => "invalid digit found in string"@,
        IntErrorKind::PosOverflow => "number too large to fit in target type"@,
        IntErrorKind::NegOverflow => "number too small to fit in target type"@,
    }
}

/// The text that describes an integer reading error, see `int_error_text`.
pub fn int_error_str(k: IntErrorKind) -> (r: &'static str)
    ensures
        r@ == int_error_text(k),
{
    match k {
        IntErrorKind::Empty => "cannot parse integer from empty string",
        IntErrorKind::InvalidDigit => "invalid digit found in string",
        IntErrorKind::PosOverflow => "number too large to fit in target type",
        IntErrorKind::NegOverflow => "number too small to fit in target type",
    }
}

/// The character of a decimal digit.
pub open spec fn digit_char(d: int) -> char {
    if d == 0 {
        '0'
    } else if d == 1 {
        '1'
    } else if d == 2 {
        '2'
    } else if d == 3 {
        '3'
    } else if d == 4 {
        '4'
    } else if d == 5 {
        '5'
    } else if d == 6 {
        '6'
    } else if d == 7 {
        '7'
    } else if d == 8 {
        '8'
    } else {
        '9'
    }
}

/// Decimal notation of a natural number, without leading zeros.
pub open spec fn decimal(n: nat) -> Seq<char>
    decreases n,
{
    if n < 10 {
        seq![digit_char(n as int)]
    } else {
        decimal(n / 10).push(digit_char((n % 10) as int))
    }
}

/// Decimal notation of an integer, with a leading `-` when it is negative.
pub open spec fn int_text(v: int) -> Seq<char> {
    if v < 0 {
        seq!['-'] + decimal((-v) as nat)
    } else {
        decimal(v as nat)
    }
}

fn digit_str(d: u32) -> (r: &'static str)
    requires
        d < 10,
    ensures
        r@ == seq![digit_char(d as int)],
{
    proof {
        reveal_strlit("0");
        reveal_strlit("1");
        reveal_strlit("2");
        reveal_strlit("3");
        reveal_strlit("4");
        reveal_strlit("5");
        reveal_strlit("6");
        reveal_strlit("7");
        reveal_strlit("8");
        reveal_strlit("9");
    }
    if d == 0 {
        "0"
    } else if d == 1 {
        "1"
    } else if d == 2 {
        "2"
    } else if d == 3 {
        "3"
    } else if d == 4 {
        "4"
    } else if d == 5 {
        "5"
    } else if d == 6 {
        "6"
    } else if d == 7 {
        "7"
    } else if d == 8 {
        "8"
    } else {
        "9"
    }
}

/// Appends the decimal notation of `n`.
pub fn append_decimal(s: &mut String, n: u32)
    ensures
        final(s)@ == old(s)@ + decimal(n as nat),
    decreases n,
{
    if n >= 10 {
        append_decimal(s, n / 10);
        s.append(digit_str(n % 10));
    } else {
        s.append(digit_str(n));
    }
}

/// Appends the decimal notation of `v`.
pub fn append_int(s: &mut String, v: i32)
    ensures
        final(s)@ == old(s)@ + int_text(v as int),
{
    if v < 0 {
        proof {
            reveal_strlit("-");
        }
        s.append("-");
        let m: i64 = -(v as i64);
        append_decimal(s, m as u32);
        assert(final(s)@ =~= old(s)@ + int_text(v as int));
    } else {
        append_decimal(s, v as u32);
    }
}

} // verus!
