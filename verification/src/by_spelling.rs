//! Procedure names that are still recognised by their spelling.
use vstd::prelude::*;
use crate::text::str_is;

verus! {

/// The spelling of `call-with-values`.
pub open spec fn call_with_values_spelling() -> Seq<char> {
    seq!['c', 'a', 'l', 'l', '-', 'w', 'i', 't', 'h', '-', 'v', 'a', 'l', 'u', 'e', 's']
}

/// The spelling of `dynamic-wind`.
pub open spec fn dynamic_wind_spelling() -> Seq<char> {
    seq!['d', 'y', 'n', 'a', 'm', 'i', 'c', '-', 'w', 'i', 'n', 'd']
}

/// Whether a recogniser decides what a call means from this spelling: true
/// for `call-with-values` and `dynamic-wind`, and for nothing else.
pub fn is_recognized(name: &str) -> (r: bool)
    ensures
        r == (name@ == call_with_values_spelling() || name@ == dynamic_wind_spelling()),
{
    proof {
        reveal_strlit("call-with-values");
        reveal_strlit("dynamic-wind");
        assert("call-with-values"@ =~= call_with_values_spelling());
        assert("dynamic-wind"@ =~= dynamic_wind_spelling());
    }
    str_is(name, "call-with-values") || str_is(name, "dynamic-wind")
}

} // verus!
