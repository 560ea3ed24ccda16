//! The two text transformations taken from the standard library whose full
//! behavior is impractical to state: whitespace trimming and Unicode
//! lowercasing. Each result is named by an uninterpreted function of the
//! characters alone, and the contracts of the library speak through those
//! names.

use vstd::prelude::*;

verus! {

/// The characters of a line with leading and trailing whitespace removed.
pub uninterp spec fn trim_of(s: Seq<char>) -> Seq<char>;

/// Relies on `str::trim`: the result is a substring of the input with
/// leading and trailing whitespace removed, a function of the characters
/// alone. Since nothing trimmable is left, trimming its result again
/// changes nothing.
#[verifier::external_body]
pub fn trim_line<'a>(s: &'a str) -> (r: &'a str)
    ensures
        r@ == trim_of(s@),
        r@.len() <= s@.len(),
        trim_of(r@) == r@,
{
    s.trim()
}

/// The lowercase form of a character sequence.
pub uninterp spec fn lower_of(s: Seq<char>) -> Seq<char>;

/// Relies on `str::to_lowercase`: the result depends on the characters
/// alone.
#[verifier::external_body]
pub fn lowercase(s: &str) -> (r: String)
    ensures
        r@ == lower_of(s@),
{
    s.to_lowercase()
}

} // verus!
