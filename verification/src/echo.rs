//! The IPv6 echo service: it answers with the text it received, in upper
//! case.
use vstd::prelude::*;

verus! {

/// The Unicode upper-case mapping of a text, as `str::to_uppercase`
/// computes it.
pub uninterp spec fn uppercase(s: Seq<char>) -> Seq<char>;

/// Upper-cases a text (`str::to_uppercase`): a function of the text alone;
/// the Unicode case tables are not restated.
#[verifier::external_body]
fn to_uppercase(s: &str) -> (res: String)
    ensures
        res@ == uppercase(s@),
{
    s.to_uppercase()
}

/// The answer to `text`: the text in upper case.
pub fn processed_text(text: &str) -> (res: String)
    ensures
        res@ == uppercase(text@),
{
    to_uppercase(text)
}

} // verus!
