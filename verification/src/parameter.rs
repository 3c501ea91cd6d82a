//! Input parameters of rhythms: their value types, and the parts of their construction that
//! work on names and value lists.

use vstd::prelude::*;

use crate::text::{chars_of, eq_ignore_case, string_of, vec_eq_ignore_case};

verus! {

/// Value representation type of an input parameter.
#[derive(Debug, Copy, Clone, PartialEq, Eq, Structural)]
pub enum ParameterType {
    Boolean,
    Float,
    Integer,
    Enum,
}

impl Default for ParameterType {
    /// Parameters are floats unless said otherwise.
    fn default() -> (r: ParameterType)
        ensures
            r == ParameterType::Float,
    {
        ParameterType::Float
    }
}

/// The name a parameter is shown by: its name, or its id when the name is empty.
pub open spec fn shown_name(id: Seq<char>, name: Seq<char>) -> Seq<char> {
    if name.len() == 0 {
        id
    } else {
        name
    }
}

/// The name a parameter is shown by: see `shown_name`.
pub fn parameter_name(id: &str, name: &str) -> (r: String)
    ensures
        r@ == shown_name(id@, name@),
{
    if name.unicode_len() == 0 {
        string_of(id)
    } else {
        string_of(name)
    }
}

/// The first position, from `i` on, of a value equal to `default` when ASCII case is
/// ignored; the number of values if there is none.
pub open spec fn first_value_index(values: Seq<String>, default: Seq<char>, i: int) -> int
    decreases values.len() - i,
{
    if i >= values.len() {
        values.len() as int
    } else if eq_ignore_case(values[i]@, default) {
        i
    } else {
        first_value_index(values, default, i + 1)
    }
}

/// The index of an enum parameter's default value among its values: the first value equal
/// to `default` when ASCII case is ignored, or 0 when there is none.
pub fn enum_default_index(values: &Vec<String>, default: &str) -> (r: usize)
    ensures
        r == (if first_value_index(values@, default@, 0) < values@.len() {
            first_value_index(values@, default@, 0)
        } else {
            0
        }),
{
    let d = chars_of(default);
    let mut i: usize = 0;
    while i < values.len()
        invariant
            i <= values@.len(),
            d@ == default@,
            first_value_index(values@, default@, 0) == first_value_index(values@, default@, i as int),
        decreases values@.len() - i,
    {
        let v = chars_of(values[i].as_str());
        if vec_eq_ignore_case(&v, &d) {
            return i;
        }
        i = i + 1;
    }
    0
}

} // verus!
