//! The elementary matchers, which nom provides. Nothing here is proved: each
//! contract restates what nom documents for `&str` input, where positions and
//! counts are in characters.

use vstd::prelude::*;
use crate::grammar::{digit_run, first_occurrence};

verus! {

/// `nom::bytes::complete::tag`: matches where the input begins with
/// `pattern`, and then gives the input behind it.
#[verifier::external_body]
pub(crate) fn literal<'a>(pattern: &str, input: &'a str) -> (r: Option<&'a str>)
    ensures
        r is Some <==> pattern@.is_prefix_of(input@),
        r matches Some(rest) ==> rest@ == input@.skip(pattern@.len() as int),
{
    match nom::bytes::complete::tag::<&str, &str, nom::error::Error<&str>>(pattern)(input) {
        Ok((rest, _)) => Some(rest),
        Err(_) => None,
    }
}

/// `nom::bytes::complete::take_until`: splits the input in front of the
/// first occurrence of `pattern`, and does not match where there is none. The
/// result is the input from the occurrence on, and the input before it.
#[verifier::external_body]
pub(crate) fn until<'a>(pattern: &str, input: &'a str) -> (r: Option<(&'a str, &'a str)>)
    ensures
        match first_occurrence(input@, pattern@, 0) {
            Some(at) => r matches Some((rest, taken)) && taken@ == input@.take(at) && rest@
                == input@.skip(at),
            None => r is None,
        },
{
    match nom::bytes::complete::take_until::<&str, &str, nom::error::Error<&str>>(pattern)(input) {
        Ok((rest, taken)) => Some((rest, taken)),
        Err(_) => None,
    }
}

/// `nom::bytes::complete::take`: splits the input behind its first `count`
/// characters, and does not match where it holds fewer. The result is the
/// input behind them, and those characters.
#[verifier::external_body]
pub(crate) fn take_chars<'a>(count: usize, input: &'a str) -> (r: Option<(&'a str, &'a str)>)
    ensures
        r is Some <==> count <= input@.len(),
        r matches Some((rest, taken)) ==> taken@ == input@.take(count as int) && rest@
            == input@.skip(count as int),
{
    match nom::bytes::complete::take::<usize, &str, nom::error::Error<&str>>(count)(input) {
        Ok((rest, taken)) => Some((rest, taken)),
        Err(_) => None,
    }
}

/// `nom::character::complete::digit0`: splits the input behind the decimal
/// digits that it begins with, and always matches. The result is the input
/// behind them, and the digits.
#[verifier::external_body]
pub(crate) fn digits0<'a>(input: &'a str) -> (r: Option<(&'a str, &'a str)>)
    ensures
        r is Some,
        r matches Some((rest, taken)) ==> taken@ == input@.take(digit_run(input@) as int) && rest@
            == input@.skip(digit_run(input@) as int),
{
    match nom::character::complete::digit0::<&str, nom::error::Error<&str>>(input) {
        Ok((rest, taken)) => Some((rest, taken)),
        Err(_) => None,
    }
}

/// `nom::character::complete::digit1`: as `digit0`, but does not match where
/// the input begins with no digit.
#[verifier::external_body]
pub(crate) fn digits1<'a>(input: &'a str) -> (r: Option<(&'a str, &'a str)>)
    ensures
        r is Some <==> digit_run(input@) > 0,
        r matches Some((rest, taken)) ==> taken@ == input@.take(digit_run(input@) as int) && rest@
            == input@.skip(digit_run(input@) as int),
{
    match nom::character::complete::digit1::<&str, nom::error::Error<&str>>(input) {
        Ok((rest, taken)) => Some((rest, taken)),
        Err(_) => None,
    }
}

/// `nom::combinator::eof`: matches where no input is left.
#[verifier::external_body]
pub(crate) fn at_end(input: &str) -> (r: bool)
    ensures
        r == (input@.len() == 0),
{
    nom::combinator::eof::<&str, nom::error::Error<&str>>(input).is_ok()
}

} // verus!
