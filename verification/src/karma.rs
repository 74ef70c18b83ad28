//! Reading and writing karma values as the update server does.

use vstd::prelude::*;
use crate::update::Karma;

verus! {

/// The error with which `bodhi` rejects a text that stands for no value.
#[verifier::external_type_specification]
#[verifier::external_body]
pub struct ExInvalidValueError(bodhi::InvalidValueError);

/// The karma that a text stands for: `+1` and `1` are positive, `0` and
/// `±0` neutral, `-1` is negative; no other text is a karma value.
pub open spec fn karma_of(s: Seq<char>) -> Option<Karma> {
    if s == "+1"@ || s == "1"@ {
        Some(Karma::Positive)
    } else if s == "0"@ || s == "\u{b1}0"@ {
        Some(Karma::Neutral)
    } else if s == "-1"@ {
        Some(Karma::Negative)
    } else {
        None
    }
}

/// The text that stands for a karma value in output.
pub open spec fn karma_text(karma: Karma) -> Seq<char> {
    match karma {
        Karma::Positive => "+1"@,
        Karma::Neutral => "\u{b1}0"@,
        Karma::Negative => "-1"@,
    }
}

/// Calls `bodhi`'s parser for karma values (`Karma::from_str`). It lowers
/// the case of the text, which changes none of the five texts that it
/// accepts, and then accepts exactly those: `+1` and `1` as positive, `0`
/// and `±0` as neutral, `-1` as negative.
#[verifier::external_body]
fn parse_karma(string: &str) -> (res: Result<Karma, bodhi::InvalidValueError>)
    ensures
        match res {
            Ok(karma) => karma_of(string@) == Some(karma),
            Err(_) => karma_of(string@) is None,
        },
{
    match string.parse::<bodhi::Karma>() {
        Ok(bodhi::Karma::Positive) => Ok(Karma::Positive),
        Ok(bodhi::Karma::Neutral) => Ok(Karma::Neutral),
        Ok(bodhi::Karma::Negative) => Ok(Karma::Negative),
        Err(error) => Err(error),
    }
}

/// Calls `bodhi`'s formatting of karma values (`Display` for `Karma`):
/// `+1` for positive, `±0` for neutral, `-1` for negative karma.
#[verifier::external_body]
pub(crate) fn format_karma(karma: Karma) -> (res: String)
    ensures
        res@ == karma_text(karma),
{
    let karma = match karma {
        Karma::Positive => bodhi::Karma::Positive,
        Karma::Neutral => bodhi::Karma::Neutral,
        Karma::Negative => bodhi::Karma::Negative,
    };
    karma.to_string()
}

/// This helper parses a string into an optional karma value instead of an error.
pub fn str_to_karma(string: &str) -> (res: Option<Karma>)
    ensures
        res == karma_of(string@),
{
    match parse_karma(string) {
        Ok(karma) => Some(karma),
        Err(_) => None,
    }
}

} // verus!
