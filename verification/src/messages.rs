//! The diagnostic lines the library prints, stated character by character
//! and built by verified concatenation.

use vstd::prelude::*;
use vstd::string::StringExecFns;

use crate::numfmt::dec_chars;
use crate::numfmt::dec_of;
use crate::numfmt::i64_to_string;
use crate::numfmt::usize_to_string;

verus! {

/// The diagnostic for an input longer than the allowed maximum: reports
/// the overflow amount and the input's own length.
pub open spec fn msg_too_long(len: int, max: int) -> Seq<char> {
    "Your input is "@ + dec_of(len - max) + " characters higher than the "@ + dec_of(len)
        + " character limit. Please try again."@
}

pub fn fmt_too_long(length: usize, max: usize) -> (r: String)
    requires
        max < length,
    ensures
        r@ == msg_too_long(length as int, max as int),
{
    let mut s = String::from_str("Your input is ");
    s.append(usize_to_string(length - max).as_str());
    s.append(" characters higher than the ");
    s.append(usize_to_string(length).as_str());
    s.append(" character limit. Please try again.");
    proof {
        assert(s@ =~= msg_too_long(length as int, max as int));
    }
    s
}

/// The diagnostic for an empty input where one is not allowed.
pub open spec fn msg_cannot_be_empty() -> Seq<char> {
    "Your input cannot be empty."@
}

pub fn fmt_cannot_be_empty() -> (r: String)
    ensures
        r@ == msg_cannot_be_empty(),
{
    String::from_str("Your input cannot be empty.")
}

/// The diagnostic for a number below the allowed minimum.
pub open spec fn msg_below_min(v: int, min: int) -> Seq<char> {
    "Your input ("@ + dec_of(v) + ") is lower than the minimum allowed value of "@ + dec_of(min)
        + "."@
}

pub fn fmt_below_min(v: i64, min: i64) -> (r: String)
    ensures
        r@ == msg_below_min(v as int, min as int),
{
    let mut s = String::from_str("Your input (");
    s.append(i64_to_string(v).as_str());
    s.append(") is lower than the minimum allowed value of ");
    s.append(i64_to_string(min).as_str());
    s.append(".");
    proof {
        assert(s@ =~= msg_below_min(v as int, min as int));
    }
    s
}

/// The diagnostic for a number above the allowed maximum.
pub open spec fn msg_above_max(v: int, max: int) -> Seq<char> {
    "Your input ("@ + dec_of(v) + ") is larger than the maximum allowed value of "@ + dec_of(max)
        + "."@
}

pub fn fmt_above_max(v: i64, max: i64) -> (r: String)
    ensures
        r@ == msg_above_max(v as int, max as int),
{
    let mut s = String::from_str("Your input (");
    s.append(i64_to_string(v).as_str());
    s.append(") is larger than the maximum allowed value of ");
    s.append(i64_to_string(max).as_str());
    s.append(".");
    proof {
        assert(s@ =~= msg_above_max(v as int, max as int));
    }
    s
}

/// The diagnostic for text that does not parse as a number.
pub open spec fn msg_invalid_number() -> Seq<char> {
    "Please enter a valid i64 value."@
}

pub fn fmt_invalid_number() -> (r: String)
    ensures
        r@ == msg_invalid_number(),
{
    String::from_str("Please enter a valid i64 value.")
}

/// The generic rejection for a number outside the choice set.
pub open spec fn msg_not_a_choice_num(v: int) -> Seq<char> {
    "Your input ("@ + dec_of(v) + ") is not a valid choice."@
}

pub fn fmt_not_a_choice_num(v: i64) -> (r: String)
    ensures
        r@ == msg_not_a_choice_num(v as int),
{
    let mut s = String::from_str("Your input (");
    s.append(i64_to_string(v).as_str());
    s.append(") is not a valid choice.");
    proof {
        assert(s@ =~= msg_not_a_choice_num(v as int));
    }
    s
}

/// The rendering of the first `k` numeric choices, each followed by a
/// comma and a space.
pub open spec fn num_items(cs: Seq<i64>, k: int) -> Seq<char>
    decreases k,
{
    if k <= 0 {
        Seq::empty()
    } else {
        num_items(cs, k - 1) + dec_of(cs[k - 1] as int) + ", "@
    }
}

/// The rejection for a number outside the choice set that echoes the whole
/// set.
pub open spec fn msg_choices_num(v: int, cs: Seq<i64>) -> Seq<char> {
    "Your input ("@ + dec_of(v) + ") is not an option of the choices: "@ + num_items(
        cs,
        cs.len() as int,
    )
}

pub fn fmt_choices_num(v: i64, cs: &Vec<i64>) -> (r: String)
    ensures
        r@ == msg_choices_num(v as int, cs@),
{
    let mut s = String::from_str("Your input (");
    s.append(i64_to_string(v).as_str());
    s.append(") is not an option of the choices: ");
    let ghost base = s@;
    let mut i: usize = 0;
    while i < cs.len()
        invariant
            i <= cs@.len(),
            s@ == base + num_items(cs@, i as int),
        decreases cs@.len() - i,
    {
        s.append(i64_to_string(cs[i]).as_str());
        s.append(", ");
        i = i + 1;
        proof {
            assert(s@ =~= base + num_items(cs@, i as int));
        }
    }
    proof {
        assert(base =~= base + num_items(cs@, 0));
        assert(s@ =~= msg_choices_num(v as int, cs@));
    }
    s
}

/// The rendering of a case-sensitivity flag.
pub open spec fn bool_str(b: bool) -> Seq<char> {
    if b {
        "true"@
    } else {
        "false"@
    }
}

/// The note naming the case-sensitivity mode in effect.
pub open spec fn msg_case(b: bool) -> Seq<char> {
    "(Case Sensitive: "@ + bool_str(b) + ")"@
}

pub fn fmt_case(b: bool) -> (r: String)
    ensures
        r@ == msg_case(b),
{
    let mut s = String::from_str("(Case Sensitive: ");
    if b {
        s.append("true");
    } else {
        s.append("false");
    }
    s.append(")");
    proof {
        assert(s@ =~= msg_case(b));
    }
    s
}

/// The generic rejection for a string outside the choice set, with the
/// case-sensitivity note on the same line.
pub open spec fn msg_not_a_choice_str(input: Seq<char>, b: bool) -> Seq<char> {
    "Your input ("@ + input + ") is not a valid choice. "@ + msg_case(b)
}

pub fn fmt_not_a_choice_str(input: &str, b: bool) -> (r: String)
    ensures
        r@ == msg_not_a_choice_str(input@, b),
{
    let mut s = String::from_str("Your input (");
    s.append(input);
    s.append(") is not a valid choice. ");
    s.append(fmt_case(b).as_str());
    proof {
        assert(s@ =~= msg_not_a_choice_str(input@, b));
    }
    s
}

/// The rendering of the first `k` string choices, each followed by a comma
/// and a space.
pub open spec fn str_items(cs: Seq<Seq<char>>, k: int) -> Seq<char>
    decreases k,
{
    if k <= 0 {
        Seq::empty()
    } else {
        str_items(cs, k - 1) + cs[k - 1] + ", "@
    }
}

/// The rejection for a string outside the choice set that echoes the whole
/// set.
pub open spec fn msg_choices_str(input: Seq<char>, cs: Seq<Seq<char>>) -> Seq<char> {
    "Your input ("@ + input + ") is not an option of the choices: "@ + str_items(
        cs,
        cs.len() as int,
    )
}

pub fn fmt_choices_str(input: &str, cs: &Vec<&str>) -> (r: String)
    ensures
        r@ == msg_choices_str(input@, crate::console::str_views(cs@)),
{
    let mut s = String::from_str("Your input (");
    s.append(input);
    s.append(") is not an option of the choices: ");
    let ghost base = s@;
    let ghost views = crate::console::str_views(cs@);
    let mut i: usize = 0;
    while i < cs.len()
        invariant
            i <= cs@.len(),
            views == crate::console::str_views(cs@),
            s@ == base + str_items(views, i as int),
        decreases cs@.len() - i,
    {
        s.append(cs[i]);
        s.append(", ");
        i = i + 1;
        proof {
            assert(s@ =~= base + str_items(views, i as int));
        }
    }
    proof {
        assert(base =~= base + str_items(views, 0));
        assert(s@ =~= msg_choices_str(input@, views));
    }
    s
}

/// The page indicator printed under every rendered page.
pub open spec fn msg_page(page: int, total: int) -> Seq<char> {
    "(Page "@ + dec_of(page) + " of "@ + dec_of(total) + ")"@
}

pub fn fmt_page(page: i64, total: i64) -> (r: String)
    ensures
        r@ == msg_page(page as int, total as int),
{
    let mut s = String::from_str("(Page ");
    s.append(i64_to_string(page).as_str());
    s.append(" of ");
    s.append(i64_to_string(total).as_str());
    s.append(")");
    proof {
        assert(s@ =~= msg_page(page as int, total as int));
    }
    s
}

} // verus!
