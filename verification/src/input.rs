//! The input acquisition operations: read a line, trim it, parse it,
//! validate it, and retry until a line passes, printing the configured
//! prompts and diagnostics along the way. The stream ending while an
//! operation still needs a line is fatal.

use vstd::prelude::*;
use vstd::string::StringExecFns;

use crate::console::opt_out;
use crate::console::opt_view;
use crate::console::print_prompt;
use crate::console::str_views;
use crate::console::CliError;
use crate::console::Console;
use crate::messages::fmt_invalid_number;
use crate::messages::msg_invalid_number;
use crate::parse::parse_i64;
use crate::parse::spec_parse_i64;
use crate::text::trim_line;
use crate::text::trim_of;
use crate::validate::check_empty;
use crate::validate::check_length;
use crate::validate::check_min_max;
use crate::validate::check_number_is_a_choice;
use crate::validate::check_string_is_a_choice;
use crate::validate::empty_diag;
use crate::validate::length_diag;
use crate::validate::length_ok;
use crate::validate::nonempty_ok;
use crate::validate::num_choice_diag;
use crate::validate::num_is_member;
use crate::validate::range_diag;
use crate::validate::range_ok;
use crate::validate::str_choice_diag;
use crate::validate::str_is_member;

verus! {

/// Whether one raw line, once trimmed, passes the string validators.
pub open spec fn string_ok(line: Seq<char>, max_length: Option<usize>, can_be_empty: bool) -> bool {
    &&& length_ok(trim_of(line).len(), max_length)
    &&& nonempty_ok(trim_of(line).len(), can_be_empty)
}

/// The diagnostics one rejected string attempt prints.
pub open spec fn string_fail_out(
    line: Seq<char>,
    max_length: Option<usize>,
    can_be_empty: bool,
) -> Seq<Seq<char>> {
    length_diag(trim_of(line).len(), max_length) + (if length_ok(trim_of(line).len(), max_length) {
        empty_diag(trim_of(line).len(), can_be_empty)
    } else {
        Seq::empty()
    })
}

/// The index of the first pending line that the string validators accept.
pub open spec fn first_string(
    lines: Seq<String>,
    from: int,
    max_length: Option<usize>,
    can_be_empty: bool,
) -> Option<int>
    decreases lines.len() - from,
{
    if from < 0 || from >= lines.len() {
        None
    } else if string_ok(lines[from]@, max_length, can_be_empty) {
        Some(from)
    } else {
        first_string(lines, from + 1, max_length, can_be_empty)
    }
}

/// Everything the rejected string attempts in `[from, to)` print: each
/// one's diagnostics, each followed by the retry text when one is set.
pub open spec fn string_attempts(
    lines: Seq<String>,
    from: int,
    to: int,
    max_length: Option<usize>,
    can_be_empty: bool,
    repeat: Option<Seq<char>>,
) -> Seq<Seq<char>>
    decreases to - from,
{
    if to <= from {
        Seq::empty()
    } else {
        string_attempts(lines, from, to - 1, max_length, can_be_empty, repeat) + string_fail_out(
            lines[to - 1]@,
            max_length,
            can_be_empty,
        ) + opt_out(repeat)
    }
}

/// Prompts for a string: prints the prompt once, then reads, trims and
/// validates lines until one passes, printing each failure's diagnostics
/// and the retry text; the accepted line is returned trimmed. The end of
/// the input stream is fatal.
pub fn get_string(
    con: &mut Console,
    prompt: Option<&str>,
    repeat_message: Option<&str>,
    max_length: Option<usize>,
    can_be_empty: bool,
) -> (r: Result<String, CliError>)
    ensures
        final(con).input@.len() <= old(con).input@.len(),
        match first_string(old(con).input@, 0, max_length, can_be_empty) {
            Some(i) => {
                &&& 0 <= i < old(con).input@.len()
                &&& r matches Ok(s) && s@ == trim_of(old(con).input@[i]@)
                &&& final(con).input@ == old(con).input@.skip(i + 1)
                &&& final(con).out_views() == old(con).out_views() + opt_out(opt_view(prompt))
                    + string_attempts(
                    old(con).input@,
                    0,
                    i,
                    max_length,
                    can_be_empty,
                    opt_view(repeat_message),
                )
            },
            None => {
                &&& r == Err::<String, CliError>(CliError::InputClosed)
                &&& final(con).input@.len() == 0
                &&& final(con).out_views() == old(con).out_views() + opt_out(opt_view(prompt))
                    + string_attempts(
                    old(con).input@,
                    0,
                    old(con).input@.len() as int,
                    max_length,
                    can_be_empty,
                    opt_view(repeat_message),
                )
            },
        },
{
    let ghost lines = old(con).input@;
    print_prompt(con, prompt);
    let ghost base = old(con).out_views() + opt_out(opt_view(prompt));
    let mut attempt: usize = 0;
    proof {
        assert(old(con).input.len() == lines.len());
    }
    loop
        invariant
            attempt <= lines.len(),
            lines.len() <= usize::MAX,
            lines == old(con).input@,
            base == old(con).out_views() + opt_out(opt_view(prompt)),
            con.input@ == lines.skip(attempt as int),
            con.out_views() == base + string_attempts(
                lines,
                0,
                attempt as int,
                max_length,
                can_be_empty,
                opt_view(repeat_message),
            ),
            first_string(lines, 0, max_length, can_be_empty) == first_string(
                lines,
                attempt as int,
                max_length,
                can_be_empty,
            ),
        decreases lines.len() - attempt,
    {
        match con.read_line() {
            None => {
                return Err(CliError::InputClosed);
            },
            Some(line) => {
                proof {
                    assert(line == lines[attempt as int]);
                    assert(con.input@ =~= lines.skip(attempt as int + 1));
                }
                let trimmed = trim_line(line.as_str());
                let length = trimmed.unicode_len();
                let mut accepted = false;
                if check_length(con, length, max_length) {
                    if check_empty(con, length, can_be_empty) {
                        accepted = true;
                    }
                }
                if accepted {
                    proof {
                        assert(con.out_views() =~= base + string_attempts(
                            lines,
                            0,
                            attempt as int,
                            max_length,
                            can_be_empty,
                            opt_view(repeat_message),
                        ));
                    }
                    return Ok(String::from_str(trimmed));
                }
                print_prompt(con, repeat_message);
                attempt = attempt + 1;
                proof {
                    assert(con.out_views() =~= base + string_attempts(
                        lines,
                        0,
                        attempt as int,
                        max_length,
                        can_be_empty,
                        opt_view(repeat_message),
                    ));
                }
            },
        }
    }
}

/// Whether one raw line, once trimmed, parses as an `i64` within the
/// optional bounds.
pub open spec fn number_ok(line: Seq<char>, min: Option<i64>, max: Option<i64>) -> bool {
    match spec_parse_i64(trim_of(line)) {
        Some(v) => range_ok(v as int, min, max),
        None => false,
    }
}

/// The diagnostics one rejected numeric attempt prints: the parse
/// diagnostic, or the violated bound.
pub open spec fn number_fail_out(line: Seq<char>, min: Option<i64>, max: Option<i64>) -> Seq<
    Seq<char>,
> {
    match spec_parse_i64(trim_of(line)) {
        Some(v) => range_diag(v as int, min, max),
        None => seq![msg_invalid_number()],
    }
}

/// The index of the first pending line that parses and lies in range.
pub open spec fn first_number(
    lines: Seq<String>,
    from: int,
    min: Option<i64>,
    max: Option<i64>,
) -> Option<int>
    decreases lines.len() - from,
{
    if from < 0 || from >= lines.len() {
        None
    } else if number_ok(lines[from]@, min, max) {
        Some(from)
    } else {
        first_number(lines, from + 1, min, max)
    }
}

/// Everything the rejected numeric attempts in `[from, to)` print.
pub open spec fn number_attempts(
    lines: Seq<String>,
    from: int,
    to: int,
    min: Option<i64>,
    max: Option<i64>,
    repeat: Option<Seq<char>>,
) -> Seq<Seq<char>>
    decreases to - from,
{
    if to <= from {
        Seq::empty()
    } else {
        number_attempts(lines, from, to - 1, min, max, repeat) + number_fail_out(
            lines[to - 1]@,
            min,
            max,
        ) + opt_out(repeat)
    }
}

/// Prompts for a number: reads, trims and parses lines until one is a
/// well-formed `i64` within the optional inclusive bounds, printing each
/// failure's diagnostic and the retry text. The end of the input stream is
/// fatal.
pub fn get_number(
    con: &mut Console,
    prompt: Option<&str>,
    repeat_message: Option<&str>,
    min_value: Option<i64>,
    max_value: Option<i64>,
) -> (r: Result<i64, CliError>)
    ensures
        final(con).input@.len() <= old(con).input@.len(),
        match first_number(old(con).input@, 0, min_value, max_value) {
            Some(i) => {
                &&& 0 <= i < old(con).input@.len()
                &&& r matches Ok(n) && spec_parse_i64(trim_of(old(con).input@[i]@)) == Some(n)
                &&& r matches Ok(n) && range_ok(n as int, min_value, max_value)
                &&& final(con).input@ == old(con).input@.skip(i + 1)
                &&& final(con).out_views() == old(con).out_views() + opt_out(opt_view(prompt))
                    + number_attempts(
                    old(con).input@,
                    0,
                    i,
                    min_value,
                    max_value,
                    opt_view(repeat_message),
                )
            },
            None => {
                &&& r == Err::<i64, CliError>(CliError::InputClosed)
                &&& final(con).input@.len() == 0
                &&& final(con).out_views() == old(con).out_views() + opt_out(opt_view(prompt))
                    + number_attempts(
                    old(con).input@,
                    0,
                    old(con).input@.len() as int,
                    min_value,
                    max_value,
                    opt_view(repeat_message),
                )
            },
        },
{
    let ghost lines = old(con).input@;
    print_prompt(con, prompt);
    let ghost base = old(con).out_views() + opt_out(opt_view(prompt));
    let mut attempt: usize = 0;
    proof {
        assert(old(con).input.len() == lines.len());
    }
    loop
        invariant
            attempt <= lines.len(),
            lines.len() <= usize::MAX,
            lines == old(con).input@,
            base == old(con).out_views() + opt_out(opt_view(prompt)),
            con.input@ == lines.skip(attempt as int),
            con.out_views() == base + number_attempts(
                lines,
                0,
                attempt as int,
                min_value,
                max_value,
                opt_view(repeat_message),
            ),
            first_number(lines, 0, min_value, max_value) == first_number(
                lines,
                attempt as int,
                min_value,
                max_value,
            ),
        decreases lines.len() - attempt,
    {
        match con.read_line() {
            None => {
                return Err(CliError::InputClosed);
            },
            Some(line) => {
                proof {
                    assert(line == lines[attempt as int]);
                    assert(con.input@ =~= lines.skip(attempt as int + 1));
                }
                let trimmed = trim_line(line.as_str());
                match parse_i64(trimmed) {
                    Some(number) => {
                        if check_min_max(con, number, min_value, max_value) {
                            proof {
                                assert(con.out_views() =~= base + number_attempts(
                                    lines,
                                    0,
                                    attempt as int,
                                    min_value,
                                    max_value,
                                    opt_view(repeat_message),
                                ));
                            }
                            return Ok(number);
                        }
                    },
                    None => {
                        con.write_line(fmt_invalid_number());
                    },
                }
                print_prompt(con, repeat_message);
                attempt = attempt + 1;
                proof {
                    assert(con.out_views() =~= base + number_attempts(
                        lines,
                        0,
                        attempt as int,
                        min_value,
                        max_value,
                        opt_view(repeat_message),
                    ));
                }
            },
        }
    }
}

/// Whether one raw line, once trimmed, parses and is one of the choices.
pub open spec fn num_choice_ok(line: Seq<char>, cs: Seq<i64>) -> bool {
    match spec_parse_i64(trim_of(line)) {
        Some(v) => num_is_member(v, cs),
        None => false,
    }
}

/// The diagnostics one rejected numeric-choice attempt prints.
pub open spec fn num_choice_fail_out(line: Seq<char>, cs: Seq<i64>, show: bool) -> Seq<Seq<char>> {
    match spec_parse_i64(trim_of(line)) {
        Some(v) => num_choice_diag(v, cs, show),
        None => seq![msg_invalid_number()],
    }
}

/// The index of the first pending line that parses to a member of the
/// choice set.
pub open spec fn first_num_choice(lines: Seq<String>, from: int, cs: Seq<i64>) -> Option<int>
    decreases lines.len() - from,
{
    if from < 0 || from >= lines.len() {
        None
    } else if num_choice_ok(lines[from]@, cs) {
        Some(from)
    } else {
        first_num_choice(lines, from + 1, cs)
    }
}

/// Everything the rejected numeric-choice attempts in `[from, to)` print.
pub open spec fn num_choice_attempts(
    lines: Seq<String>,
    from: int,
    to: int,
    cs: Seq<i64>,
    show: bool,
    repeat: Option<Seq<char>>,
) -> Seq<Seq<char>>
    decreases to - from,
{
    if to <= from {
        Seq::empty()
    } else {
        num_choice_attempts(lines, from, to - 1, cs, show, repeat) + num_choice_fail_out(
            lines[to - 1]@,
            cs,
            show,
        ) + opt_out(repeat)
    }
}

/// Prompts the user to pick one of an enumerated, non-empty set of
/// numbers; an empty choice set is refused at once, before any line is
/// read or printed. The end of the input stream is fatal.
pub fn select_number_from_choices(
    con: &mut Console,
    prompt: Option<&str>,
    repeat_message: Option<&str>,
    choices: Vec<i64>,
    show_choices_on_failure: bool,
) -> (r: Result<i64, CliError>)
    ensures
        final(con).input@.len() <= old(con).input@.len(),
        choices@.len() == 0 ==> r == Err::<i64, CliError>(CliError::EmptyChoices) && *final(con)
            == *old(con),
        choices@.len() > 0 ==> match first_num_choice(old(con).input@, 0, choices@) {
            Some(i) => {
                &&& 0 <= i < old(con).input@.len()
                &&& r matches Ok(n) && spec_parse_i64(trim_of(old(con).input@[i]@)) == Some(n)
                &&& r matches Ok(n) && num_is_member(n, choices@)
                &&& final(con).input@ == old(con).input@.skip(i + 1)
                &&& final(con).out_views() == old(con).out_views() + opt_out(opt_view(prompt))
                    + num_choice_attempts(
                    old(con).input@,
                    0,
                    i,
                    choices@,
                    show_choices_on_failure,
                    opt_view(repeat_message),
                )
            },
            None => {
                &&& r == Err::<i64, CliError>(CliError::InputClosed)
                &&& final(con).input@.len() == 0
                &&& final(con).out_views() == old(con).out_views() + opt_out(opt_view(prompt))
                    + num_choice_attempts(
                    old(con).input@,
                    0,
                    old(con).input@.len() as int,
                    choices@,
                    show_choices_on_failure,
                    opt_view(repeat_message),
                )
            },
        },
{
    if choices.len() == 0 {
        return Err(CliError::EmptyChoices);
    }
    let ghost lines = old(con).input@;
    print_prompt(con, prompt);
    let ghost base = old(con).out_views() + opt_out(opt_view(prompt));
    let mut attempt: usize = 0;
    proof {
        assert(old(con).input.len() == lines.len());
    }
    loop
        invariant
            choices@.len() > 0,
            attempt <= lines.len(),
            lines.len() <= usize::MAX,
            lines == old(con).input@,
            base == old(con).out_views() + opt_out(opt_view(prompt)),
            con.input@ == lines.skip(attempt as int),
            con.out_views() == base + num_choice_attempts(
                lines,
                0,
                attempt as int,
                choices@,
                show_choices_on_failure,
                opt_view(repeat_message),
            ),
            first_num_choice(lines, 0, choices@) == first_num_choice(
                lines,
                attempt as int,
                choices@,
            ),
        decreases lines.len() - attempt,
    {
        match con.read_line() {
            None => {
                return Err(CliError::InputClosed);
            },
            Some(line) => {
                proof {
                    assert(line == lines[attempt as int]);
                    assert(con.input@ =~= lines.skip(attempt as int + 1));
                }
                let trimmed = trim_line(line.as_str());
                match parse_i64(trimmed) {
                    Some(number) => {
                        if check_number_is_a_choice(
                            con,
                            number,
                            &choices,
                            show_choices_on_failure,
                        ) {
                            proof {
                                assert(con.out_views() =~= base + num_choice_attempts(
                                    lines,
                                    0,
                                    attempt as int,
                                    choices@,
                                    show_choices_on_failure,
                                    opt_view(repeat_message),
                                ));
                            }
                            return Ok(number);
                        }
                    },
                    None => {
                        con.write_line(fmt_invalid_number());
                    },
                }
                print_prompt(con, repeat_message);
                attempt = attempt + 1;
                proof {
                    assert(con.out_views() =~= base + num_choice_attempts(
                        lines,
                        0,
                        attempt as int,
                        choices@,
                        show_choices_on_failure,
                        opt_view(repeat_message),
                    ));
                }
            },
        }
    }
}

/// Whether one raw line, once trimmed, matches one of the string choices.
pub open spec fn str_choice_ok(line: Seq<char>, cs: Seq<Seq<char>>, case_sensitive: bool) -> bool {
    str_is_member(trim_of(line), cs, case_sensitive)
}

/// The diagnostics one rejected string-choice attempt prints.
pub open spec fn str_choice_fail_out(
    line: Seq<char>,
    cs: Seq<Seq<char>>,
    case_sensitive: bool,
    show: bool,
) -> Seq<Seq<char>> {
    str_choice_diag(trim_of(line), cs, case_sensitive, show)
}

/// The index of the first pending line whose trimmed text matches a
/// choice.
pub open spec fn first_str_choice(
    lines: Seq<String>,
    from: int,
    cs: Seq<Seq<char>>,
    case_sensitive: bool,
) -> Option<int>
    decreases lines.len() - from,
{
    if from < 0 || from >= lines.len() {
        None
    } else if str_choice_ok(lines[from]@, cs, case_sensitive) {
        Some(from)
    } else {
        first_str_choice(lines, from + 1, cs, case_sensitive)
    }
}

/// Everything the rejected string-choice attempts in `[from, to)` print.
pub open spec fn str_choice_attempts(
    lines: Seq<String>,
    from: int,
    to: int,
    cs: Seq<Seq<char>>,
    case_sensitive: bool,
    show: bool,
    repeat: Option<Seq<char>>,
) -> Seq<Seq<char>>
    decreases to - from,
{
    if to <= from {
        Seq::empty()
    } else {
        str_choice_attempts(lines, from, to - 1, cs, case_sensitive, show, repeat)
            + str_choice_fail_out(lines[to - 1]@, cs, case_sensitive, show) + opt_out(repeat)
    }
}

/// Prompts the user to pick one of an enumerated, non-empty set of
/// strings, matched exactly or ignoring case as configured; an empty
/// choice set is refused at once, before any line is read or printed. The
/// accepted line is returned trimmed. The end of the input stream is
/// fatal.
pub fn select_string_from_choices(
    con: &mut Console,
    prompt: Option<&str>,
    repeat_message: Option<&str>,
    choices: Vec<&str>,
    case_sensitive: bool,
    show_choices_on_failure: bool,
) -> (r: Result<String, CliError>)
    ensures
        final(con).input@.len() <= old(con).input@.len(),
        choices@.len() == 0 ==> r == Err::<String, CliError>(CliError::EmptyChoices) && *final(con)
            == *old(con),
        choices@.len() > 0 ==> match first_str_choice(
            old(con).input@,
            0,
            str_views(choices@),
            case_sensitive,
        ) {
            Some(i) => {
                &&& 0 <= i < old(con).input@.len()
                &&& r matches Ok(s) && s@ == trim_of(old(con).input@[i]@)
                &&& r matches Ok(s) && str_is_member(s@, str_views(choices@), case_sensitive)
                &&& final(con).input@ == old(con).input@.skip(i + 1)
                &&& final(con).out_views() == old(con).out_views() + opt_out(opt_view(prompt))
                    + str_choice_attempts(
                    old(con).input@,
                    0,
                    i,
                    str_views(choices@),
                    case_sensitive,
                    show_choices_on_failure,
                    opt_view(repeat_message),
                )
            },
            None => {
                &&& r == Err::<String, CliError>(CliError::InputClosed)
                &&& final(con).input@.len() == 0
                &&& final(con).out_views() == old(con).out_views() + opt_out(opt_view(prompt))
                    + str_choice_attempts(
                    old(con).input@,
                    0,
                    old(con).input@.len() as int,
                    str_views(choices@),
                    case_sensitive,
                    show_choices_on_failure,
                    opt_view(repeat_message),
                )
            },
        },
{
    if choices.len() == 0 {
        return Err(CliError::EmptyChoices);
    }
    let ghost views = str_views(choices@);
    let ghost lines = old(con).input@;
    print_prompt(con, prompt);
    let ghost base = old(con).out_views() + opt_out(opt_view(prompt));
    let mut attempt: usize = 0;
    proof {
        assert(old(con).input.len() == lines.len());
    }
    loop
        invariant
            choices@.len() > 0,
            views == str_views(choices@),
            attempt <= lines.len(),
            lines.len() <= usize::MAX,
            lines == old(con).input@,
            base == old(con).out_views() + opt_out(opt_view(prompt)),
            con.input@ == lines.skip(attempt as int),
            con.out_views() == base + str_choice_attempts(
                lines,
                0,
                attempt as int,
                views,
                case_sensitive,
                show_choices_on_failure,
                opt_view(repeat_message),
            ),
            first_str_choice(lines, 0, views, case_sensitive) == first_str_choice(
                lines,
                attempt as int,
                views,
                case_sensitive,
            ),
        decreases lines.len() - attempt,
    {
        match con.read_line() {
            None => {
                return Err(CliError::InputClosed);
            },
            Some(line) => {
                proof {
                    assert(line == lines[attempt as int]);
                    assert(con.input@ =~= lines.skip(attempt as int + 1));
                }
                let trimmed = String::from_str(trim_line(line.as_str()));
                if check_string_is_a_choice(
                    con,
                    &trimmed,
                    &choices,
                    case_sensitive,
                    show_choices_on_failure,
                ) {
                    proof {
                        assert(con.out_views() =~= base + str_choice_attempts(
                            lines,
                            0,
                            attempt as int,
                            views,
                            case_sensitive,
                            show_choices_on_failure,
                            opt_view(repeat_message),
                        ));
                    }
                    return Ok(trimmed);
                }
                print_prompt(con, repeat_message);
                attempt = attempt + 1;
                proof {
                    assert(con.out_views() =~= base + str_choice_attempts(
                        lines,
                        0,
                        attempt as int,
                        views,
                        case_sensitive,
                        show_choices_on_failure,
                        opt_view(repeat_message),
                    ));
                }
            },
        }
    }
}

} // verus!
