use crate::text::{chars_of, parse_i32, parse_i32_at};
use vstd::prelude::*;

verus! {

/// A window dimension from its setting: the setting read as an `i32` when
/// it is at least `minimum`, else `fallback`.
pub open spec fn window_dimension(value: Option<Seq<char>>, fallback: i32, minimum: i32) -> i32 {
    match value {
        Some(text) => match parse_i32(text) {
            Some(n) => if n >= minimum {
                n
            } else {
                fallback
            },
            None => fallback,
        },
        None => fallback,
    }
}

/// Resolves a window dimension from the value of its setting (`None` when
/// it is not set).
pub fn resolve_window_dimension(value: Option<&str>, fallback: i32, minimum: i32) -> (dim: i32)
    ensures
        dim == window_dimension(
            match value {
                Some(t) => Some(t@),
                None => None,
            },
            fallback,
            minimum,
        ),
        dim == fallback || dim >= minimum,
        value is Some && parse_i32(value->0@) is Some && parse_i32(value->0@)->0 >= minimum
            ==> dim == parse_i32(value->0@)->0,
        !(value is Some && parse_i32(value->0@) is Some && parse_i32(value->0@)->0 >= minimum)
            ==> dim == fallback,
{
    match value {
        None => fallback,
        Some(text) => {
            let v = chars_of(text);
            proof {
                assert(v@.subrange(0, v@.len() as int) =~= v@);
            }
            match parse_i32_at(&v, 0, v.len()) {
                Some(n) => if n >= minimum {
                    n
                } else {
                    fallback
                },
                None => fallback,
            }
        },
    }
}

/// A setting that reads as an `i32` at least `minimum` is the dimension,
/// whatever the fallback; any other setting, or none, gives the fallback.
pub proof fn lemma_setting_wins_over_fallback(text: Seq<char>, fallback: i32, minimum: i32)
    ensures
        parse_i32(text) is Some && parse_i32(text)->0 >= minimum ==> window_dimension(
            Some(text),
            fallback,
            minimum,
        ) == parse_i32(text)->0,
        !(parse_i32(text) is Some && parse_i32(text)->0 >= minimum) ==> window_dimension(
            Some(text),
            fallback,
            minimum,
        ) == fallback,
        window_dimension(None, fallback, minimum) == fallback,
{
}

} // verus!
