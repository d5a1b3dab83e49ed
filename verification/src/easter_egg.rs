//! A hidden compliment command.
use vstd::prelude::*;
use vstd::string::StringExecFns;
use crate::text::push_str;

verus! {

/// What the compliment command answers.
#[derive(Debug, Clone, PartialEq, Eq)]
pub enum ComplimentReply {
    /// The compliment for the person named.
    Compliment(String),
    /// Someone tried to ping everyone.
    NiceTry,
    /// Nobody was named.
    NotEnoughArguments,
}

/// The answer to the compliment command for its first argument: the
/// compliment, but not for `@everyone` or `@here`.
pub fn chamuyar(person: Option<&str>) -> (r: ComplimentReply)
    ensures
        match person {
            None => r == ComplimentReply::NotEnoughArguments,
            Some(p) => if p@ == "@everyone"@ || p@ == "@here"@ {
                r == ComplimentReply::NiceTry
            } else {
                r matches ComplimentReply::Compliment(m) && m@ == "Alta facha tiene el "@ + p@
            },
        },
{
    match person {
        None => ComplimentReply::NotEnoughArguments,
        Some(p) => {
            if crate::text::str_eq(p, "@everyone") || crate::text::str_eq(p, "@here") {
                ComplimentReply::NiceTry
            } else {
                let mut m = String::from_str("Alta facha tiene el ");
                push_str(&mut m, p);
                ComplimentReply::Compliment(m)
            }
        },
    }
}

/// The answer where someone tried to ping everyone.
pub fn nice_try_reply() -> (r: &'static str)
    ensures
        r@ == "Nice try."@,
{
    "Nice try."
}

} // verus!
