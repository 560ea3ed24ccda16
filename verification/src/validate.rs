//! The validators: pure accept/reject decisions over a candidate value,
//! printing a diagnostic on rejection.

use vstd::prelude::*;

use crate::console::lemma_views_push;
use crate::console::str_views;
use crate::console::Console;
use crate::messages::fmt_above_max;
use crate::messages::fmt_below_min;
use crate::messages::fmt_cannot_be_empty;
use crate::messages::fmt_case;
use crate::messages::fmt_choices_num;
use crate::messages::fmt_choices_str;
use crate::messages::fmt_not_a_choice_num;
use crate::messages::fmt_not_a_choice_str;
use crate::messages::fmt_too_long;
use crate::messages::msg_above_max;
use crate::messages::msg_below_min;
use crate::messages::msg_cannot_be_empty;
use crate::messages::msg_case;
use crate::messages::msg_choices_num;
use crate::messages::msg_choices_str;
use crate::messages::msg_not_a_choice_num;
use crate::messages::msg_not_a_choice_str;
use crate::messages::msg_too_long;
use crate::text::lower_of;
use crate::text::lowercase;
use vstd::string::StringExecFns;

verus! {

/// Whether a length passes an optional ceiling: always when the ceiling is
/// absent, and exactly when `len <= m` under a ceiling `m`.
pub open spec fn length_ok(len: nat, max_length: Option<usize>) -> bool {
    match max_length {
        Some(m) => len <= m,
        None => true,
    }
}

/// The lines that checking a length prints: nothing on acceptance, the
/// overflow diagnostic on rejection.
pub open spec fn length_diag(len: nat, max_length: Option<usize>) -> Seq<Seq<char>> {
    if length_ok(len, max_length) {
        Seq::empty()
    } else {
        seq![msg_too_long(len as int, max_length->0 as int)]
    }
}

/// Accepts a length under the optional ceiling; rejects and prints the
/// overflow otherwise.
pub fn check_length(con: &mut Console, length: usize, max_length: Option<usize>) -> (r: bool)
    ensures
        r == length_ok(length as nat, max_length),
        final(con).input == old(con).input,
        final(con).out_views() == old(con).out_views() + length_diag(length as nat, max_length),
{
    let r = match max_length {
        Some(max) => {
            if length > max {
                let m = fmt_too_long(length, max);
                con.write_line(m);
                proof {
                    lemma_views_push(old(con).output@, final(con).output@.last());
                }
                false
            } else {
                true
            }
        },
        None => true,
    };
    proof {
        assert(final(con).out_views() =~= old(con).out_views() + length_diag(
            length as nat,
            max_length,
        ));
    }
    r
}

/// Whether a length passes the emptiness rule: always when empty input is
/// allowed, and exactly when the length is positive otherwise.
pub open spec fn nonempty_ok(len: nat, can_be_empty: bool) -> bool {
    can_be_empty || len > 0
}

/// The lines that the emptiness check prints.
pub open spec fn empty_diag(len: nat, can_be_empty: bool) -> Seq<Seq<char>> {
    if nonempty_ok(len, can_be_empty) {
        Seq::empty()
    } else {
        seq![msg_cannot_be_empty()]
    }
}

/// Accepts a non-empty input, or any input when empty ones are allowed.
pub fn check_empty(con: &mut Console, length: usize, can_be_empty: bool) -> (r: bool)
    ensures
        r == nonempty_ok(length as nat, can_be_empty),
        final(con).input == old(con).input,
        final(con).out_views() == old(con).out_views() + empty_diag(length as nat, can_be_empty),
{
    let r = if length == 0 && !can_be_empty {
        con.write_line(fmt_cannot_be_empty());
        proof {
            lemma_views_push(old(con).output@, final(con).output@.last());
        }
        false
    } else {
        true
    };
    proof {
        assert(final(con).out_views() =~= old(con).out_views() + empty_diag(
            length as nat,
            can_be_empty,
        ));
    }
    r
}

/// Whether a value lies within optional inclusive bounds: it fails exactly
/// when a present minimum exceeds it or a present maximum is below it.
pub open spec fn range_ok(v: int, min: Option<i64>, max: Option<i64>) -> bool {
    &&& match min {
        Some(m) => v >= m,
        None => true,
    }
    &&& match max {
        Some(m) => v <= m,
        None => true,
    }
}

/// The lines that the range check prints: the minimum violation is
/// reported first and alone.
pub open spec fn range_diag(v: int, min: Option<i64>, max: Option<i64>) -> Seq<Seq<char>> {
    if min is Some && v < min->0 {
        seq![msg_below_min(v, min->0 as int)]
    } else if max is Some && v > max->0 {
        seq![msg_above_max(v, max->0 as int)]
    } else {
        Seq::empty()
    }
}

/// Accepts a number within the optional inclusive bounds; rejects and
/// reports the violated bound otherwise, the minimum checked first.
pub fn check_min_max(
    con: &mut Console,
    number: i64,
    min_value: Option<i64>,
    max_value: Option<i64>,
) -> (r: bool)
    ensures
        r == range_ok(number as int, min_value, max_value),
        final(con).input == old(con).input,
        final(con).out_views() == old(con).out_views() + range_diag(
            number as int,
            min_value,
            max_value,
        ),
{
    let mut r = true;
    match min_value {
        Some(min) => {
            if number < min {
                con.write_line(fmt_below_min(number, min));
                proof {
                    lemma_views_push(old(con).output@, final(con).output@.last());
                    assert(final(con).out_views() =~= old(con).out_views() + range_diag(
                        number as int,
                        min_value,
                        max_value,
                    ));
                }
                return false;
            }
        },
        None => {},
    }
    match max_value {
        Some(max) => {
            if number > max {
                con.write_line(fmt_above_max(number, max));
                proof {
                    lemma_views_push(old(con).output@, final(con).output@.last());
                    assert(final(con).out_views() =~= old(con).out_views() + range_diag(
                        number as int,
                        min_value,
                        max_value,
                    ));
                }
                return false;
            }
        },
        None => {},
    }
    proof {
        assert(final(con).out_views() =~= old(con).out_views() + range_diag(
            number as int,
            min_value,
            max_value,
        ));
    }
    true
}

/// Whether a number equals some element of the choice sequence.
pub open spec fn num_is_member(v: i64, cs: Seq<i64>) -> bool {
    exists|i: int| 0 <= i < cs.len() && cs[i] == v
}

/// The lines that the numeric membership check prints: nothing on
/// acceptance; on rejection, either the echoed choice list or the generic
/// rejection, as the flag asks.
pub open spec fn num_choice_diag(v: i64, cs: Seq<i64>, show: bool) -> Seq<Seq<char>> {
    if num_is_member(v, cs) {
        Seq::empty()
    } else if show {
        seq![msg_choices_num(v as int, cs)]
    } else {
        seq![msg_not_a_choice_num(v as int)]
    }
}

/// Accepts a number that equals one of the choices; rejects and prints
/// either the echoed choice list or a generic rejection otherwise.
pub fn check_number_is_a_choice(
    con: &mut Console,
    number: i64,
    choices: &Vec<i64>,
    show_choices_on_failure: bool,
) -> (r: bool)
    ensures
        r == num_is_member(number, choices@),
        final(con).input == old(con).input,
        final(con).out_views() == old(con).out_views() + num_choice_diag(
            number,
            choices@,
            show_choices_on_failure,
        ),
{
    let mut i: usize = 0;
    while i < choices.len()
        invariant
            i <= choices@.len(),
            forall|j: int| 0 <= j < i ==> choices@[j] != number,
            *con == *old(con),
        decreases choices@.len() - i,
    {
        if choices[i] == number {
            proof {
                assert(num_is_member(number, choices@));
                assert(final(con).out_views() =~= old(con).out_views() + num_choice_diag(
                    number,
                    choices@,
                    show_choices_on_failure,
                ));
            }
            return true;
        }
        i = i + 1;
    }
    if show_choices_on_failure {
        con.write_line(fmt_choices_num(number, choices));
    } else {
        con.write_line(fmt_not_a_choice_num(number));
    }
    proof {
        lemma_views_push(old(con).output@, final(con).output@.last());
        assert(final(con).out_views() =~= old(con).out_views() + num_choice_diag(
            number,
            choices@,
            show_choices_on_failure,
        ));
    }
    false
}

/// Whether one string matches one choice: exactly, or ignoring case when
/// case sensitivity is off.
pub open spec fn str_matches(input: Seq<char>, choice: Seq<char>, case_sensitive: bool) -> bool {
    input == choice || (!case_sensitive && lower_of(input) == lower_of(choice))
}

/// Whether a string matches some element of the choice sequence.
pub open spec fn str_is_member(input: Seq<char>, cs: Seq<Seq<char>>, case_sensitive: bool) -> bool {
    exists|i: int| 0 <= i < cs.len() && str_matches(input, cs[i], case_sensitive)
}

/// The lines that the string membership check prints: nothing on
/// acceptance; on rejection, either the echoed choice list followed by the
/// case-sensitivity note, or a single generic rejection carrying the note.
pub open spec fn str_choice_diag(
    input: Seq<char>,
    cs: Seq<Seq<char>>,
    case_sensitive: bool,
    show: bool,
) -> Seq<Seq<char>> {
    if str_is_member(input, cs, case_sensitive) {
        Seq::empty()
    } else if show {
        seq![msg_choices_str(input, cs), msg_case(case_sensitive)]
    } else {
        seq![msg_not_a_choice_str(input, case_sensitive)]
    }
}

/// Accepts a string that matches one of the choices, exactly or ignoring
/// case as configured; rejects and prints the configured diagnostic,
/// always naming the case-sensitivity mode in effect.
pub fn check_string_is_a_choice(
    con: &mut Console,
    input: &String,
    choices: &Vec<&str>,
    case_sensitive: bool,
    show_choices_on_failure: bool,
) -> (r: bool)
    ensures
        r == str_is_member(input@, str_views(choices@), case_sensitive),
        final(con).input == old(con).input,
        final(con).out_views() == old(con).out_views() + str_choice_diag(
            input@,
            str_views(choices@),
            case_sensitive,
            show_choices_on_failure,
        ),
{
    let ghost views = str_views(choices@);
    let mut i: usize = 0;
    while i < choices.len()
        invariant
            i <= choices@.len(),
            views == str_views(choices@),
            forall|j: int| 0 <= j < i ==> !str_matches(input@, views[j], case_sensitive),
            *con == *old(con),
        decreases choices@.len() - i,
    {
        let choice = choices[i];
        proof {
            assert(views[i as int] == choice@);
        }
        if *input == String::from_str(choice) {
            proof {
                assert(str_matches(input@, views[i as int], case_sensitive));
                assert(final(con).out_views() =~= old(con).out_views() + str_choice_diag(
                    input@,
                    views,
                    case_sensitive,
                    show_choices_on_failure,
                ));
            }
            return true;
        } else if lowercase(input.as_str()) == lowercase(choice) && !case_sensitive {
            proof {
                assert(str_matches(input@, views[i as int], case_sensitive));
                assert(final(con).out_views() =~= old(con).out_views() + str_choice_diag(
                    input@,
                    views,
                    case_sensitive,
                    show_choices_on_failure,
                ));
            }
            return true;
        }
        i = i + 1;
    }
    if show_choices_on_failure {
        con.write_line(fmt_choices_str(input.as_str(), choices));
        proof {
            lemma_views_push(old(con).output@, final(con).output@.last());
        }
        con.write_line(fmt_case(case_sensitive));
        proof {
            lemma_views_push(final(con).output@.drop_last(), final(con).output@.last());
        }
    } else {
        con.write_line(fmt_not_a_choice_str(input.as_str(), case_sensitive));
        proof {
            lemma_views_push(old(con).output@, final(con).output@.last());
        }
    }
    proof {
        assert(final(con).out_views() =~= old(con).out_views() + str_choice_diag(
            input@,
            views,
            case_sensitive,
            show_choices_on_failure,
        ));
    }
    false
}

} // verus!
