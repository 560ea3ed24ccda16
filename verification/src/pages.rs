//! Rendering lists, the screen-clear sequence, and the paginated,
//! navigable list: a state machine over the current page driven by
//! single-letter commands.

use vstd::prelude::*;
use vstd::arithmetic::div_mod::lemma_fundamental_div_mod;
use vstd::arithmetic::div_mod::lemma_mod_bound;
use vstd::arithmetic::mul::lemma_mul_inequality;
use vstd::arithmetic::mul::lemma_mul_nonnegative;
use vstd::string::StringExecFns;

use crate::console::opt_out;
use crate::console::opt_view;
use crate::console::print_prompt;
use crate::console::views_of;
use crate::console::CliError;
use crate::console::Console;
use crate::input::first_num_choice;
use crate::input::first_str_choice;
use crate::input::num_choice_attempts;
use crate::input::num_choice_fail_out;
use crate::input::num_choice_ok;
use crate::input::select_number_from_choices;
use crate::input::select_string_from_choices;
use crate::input::str_choice_attempts;
use crate::input::str_choice_fail_out;
use crate::input::str_choice_ok;
use crate::messages::fmt_page;
use crate::messages::msg_page;
use crate::parse::spec_parse_i64;
use crate::text::lower_of;
use crate::text::lowercase;
use crate::text::trim_of;
use crate::validate::num_is_member;

verus! {

/// Prints an optional header followed by every item, one per line.
pub fn print_list(con: &mut Console, header_message: Option<&str>, items: &Vec<String>)
    ensures
        final(con).input == old(con).input,
        final(con).out_views() == old(con).out_views() + opt_out(opt_view(header_message))
            + views_of(items@),
{
    print_prompt(con, header_message);
    let ghost base = old(con).out_views() + opt_out(opt_view(header_message));
    let mut i: usize = 0;
    while i < items.len()
        invariant
            i <= items@.len(),
            con.input == old(con).input,
            con.out_views() == base + views_of(items@).subrange(0, i as int),
        decreases items@.len() - i,
    {
        con.write_line(items[i].clone());
        i = i + 1;
        proof {
            assert(con.out_views() =~= base + views_of(items@).subrange(0, i as int));
        }
    }
    proof {
        assert(views_of(items@).subrange(0, items@.len() as int) =~= views_of(items@));
    }
}

/// The screen-clear control sequence: the escape character followed by
/// `c`.
pub open spec fn clear_sequence() -> Seq<char> {
    "\u{1b}c"@
}

/// Emits the screen-clear control sequence as one write.
pub fn clear_terminal(con: &mut Console)
    ensures
        final(con).input == old(con).input,
        final(con).out_views() == old(con).out_views().push(clear_sequence()),
        final(con).out_views() == old(con).out_views() + seq![clear_sequence()],
{
    con.write_line(String::from_str("\u{1b}c"));
    proof {
        assert(final(con).out_views() =~= old(con).out_views() + seq![clear_sequence()]);
    }
}

/// The number of pages a list occupies: the item count divided by the page
/// size, rounded up, and floored at one even for an empty list.
pub open spec fn spec_page_count(n_items: int, per_page: int) -> int {
    if n_items <= 0 {
        1
    } else {
        (n_items - 1) / per_page + 1
    }
}

/// Computes the page count of a list.
pub fn page_count(number_of_items: i64, items_per_page: i64) -> (r: i64)
    requires
        number_of_items >= 0,
        items_per_page > 0,
    ensures
        r == spec_page_count(number_of_items as int, items_per_page as int),
{
    if number_of_items == 0 {
        1
    } else {
        (number_of_items - 1) / items_per_page + 1
    }
}

/// The page count is the least page count that covers every item: at least
/// one page always; all items fit; and, when any item exists, one page
/// fewer would leave some item uncovered.
pub proof fn lemma_page_count_bounds(n_items: int, per_page: int)
    requires
        n_items >= 0,
        per_page > 0,
    ensures
        spec_page_count(n_items, per_page) >= 1,
        n_items <= spec_page_count(n_items, per_page) * per_page,
        n_items > 0 ==> (spec_page_count(n_items, per_page) - 1) * per_page < n_items,
{
    if n_items == 0 {
        assert(spec_page_count(n_items, per_page) * per_page == per_page);
    } else {
        let q = (n_items - 1) / per_page;
        let r = (n_items - 1) % per_page;
        lemma_fundamental_div_mod(n_items - 1, per_page);
        lemma_mod_bound(n_items - 1, per_page);
        assert((q + 1) * per_page == per_page * q + per_page) by (nonlinear_arith);
        assert(q * per_page == per_page * q) by (nonlinear_arith);
    }
}

/// The index of the first item on a page.
pub open spec fn page_start(page: int, per_page: int) -> int {
    (page - 1) * per_page
}

/// The index just past the last item on a page: the end of the list on the
/// final page, the full page boundary otherwise.
pub open spec fn page_end(page: int, total: int, per_page: int, n_items: int) -> int {
    if page == total {
        n_items
    } else {
        page * per_page
    }
}

/// Everything one render step prints: the optional header, the items of
/// the current page in order, and the page indicator.
pub open spec fn render_out(
    header: Option<Seq<char>>,
    items: Seq<String>,
    page: int,
    per_page: int,
    total: int,
) -> Seq<Seq<char>> {
    opt_out(header) + views_of(items).subrange(
        page_start(page, per_page),
        page_end(page, total, per_page, items.len() as int),
    ) + seq![msg_page(page, total)]
}

/// Renders one page: the header when present, the items with index in
/// `[(page-1)*per_page, min(page*per_page, n))`, and the page indicator.
pub fn render_page(
    con: &mut Console,
    header_message: Option<&str>,
    items: &Vec<String>,
    current_page: i64,
    items_per_page: i64,
    number_of_pages: i64,
)
    requires
        items@.len() <= i64::MAX,
        items_per_page > 0,
        1 <= current_page <= number_of_pages,
        number_of_pages as int == spec_page_count(items@.len() as int, items_per_page as int),
    ensures
        final(con).input == old(con).input,
        final(con).out_views() == old(con).out_views() + render_out(
            opt_view(header_message),
            items@,
            current_page as int,
            items_per_page as int,
            number_of_pages as int,
        ),
{
    let number_of_items: i64 = items.len() as i64;
    proof {
        lemma_page_count_bounds(number_of_items as int, items_per_page as int);
    }
    print_prompt(con, header_message);
    let ghost base = old(con).out_views() + opt_out(opt_view(header_message));
    let end_index: i64;
    if current_page == number_of_pages {
        end_index = number_of_items;
    } else {
        proof {
            lemma_mul_inequality(
                current_page as int,
                number_of_pages as int - 1,
                items_per_page as int,
            );
            lemma_mul_nonnegative(current_page as int, items_per_page as int);
        }
        end_index = current_page * items_per_page;
    }
    let ghost start_g = page_start(current_page as int, items_per_page as int);
    let ghost end_g = page_end(
        current_page as int,
        number_of_pages as int,
        items_per_page as int,
        items@.len() as int,
    );
    if number_of_items > 0 {
        proof {
            lemma_mul_inequality(
                current_page as int - 1,
                number_of_pages as int - 1,
                items_per_page as int,
            );
            lemma_mul_nonnegative(current_page as int - 1, items_per_page as int);
            assert(current_page as int * items_per_page as int == (current_page as int - 1)
                * items_per_page as int + items_per_page as int) by (nonlinear_arith);
        }
        let start: i64 = (current_page - 1) * items_per_page;
        let mut i: i64 = start;
        proof {
            assert(items.len() <= usize::MAX);
        }
        while i < end_index
            invariant
                items@.len() <= i64::MAX,
                items@.len() <= usize::MAX,
                start_g <= i <= end_g,
                start == start_g,
                end_index == end_g,
                end_g <= items@.len(),
                start_g >= 0,
                con.input == old(con).input,
                con.out_views() == base + views_of(items@).subrange(start_g, i as int),
            decreases end_index - i,
        {
            con.write_line(items[i as usize].clone());
            i = i + 1;
            proof {
                assert(con.out_views() =~= base + views_of(items@).subrange(start_g, i as int));
            }
        }
    } else {
        proof {
            vstd::arithmetic::mul::lemma_mul_basics(items_per_page as int);
            assert(con.out_views() =~= base + views_of(items@).subrange(start_g, end_g));
        }
    }
    con.write_line(fmt_page(current_page, number_of_pages));
    proof {
        assert(final(con).out_views() =~= old(con).out_views() + render_out(
            opt_view(header_message),
            items@,
            current_page as int,
            items_per_page as int,
            number_of_pages as int,
        ));
    }
}

/// The four navigation commands of the paginated list.
#[derive(Clone, Copy, Debug, PartialEq, Eq, Structural)]
pub enum NavCommand {
    Next,
    Previous,
    Select,
    Exit,
}

/// Which command a confirmed selection stands for, by its lowercase form.
pub open spec fn spec_parse_nav(s: Seq<char>) -> Option<NavCommand> {
    if lower_of(s) == "n"@ {
        Some(NavCommand::Next)
    } else if lower_of(s) == "p"@ {
        Some(NavCommand::Previous)
    } else if lower_of(s) == "s"@ {
        Some(NavCommand::Select)
    } else if lower_of(s) == "e"@ {
        Some(NavCommand::Exit)
    } else {
        None
    }
}

/// Interprets a selected command string, ignoring case.
pub fn parse_nav(input: &String) -> (r: Option<NavCommand>)
    ensures
        r == spec_parse_nav(input@),
{
    let low = lowercase(input.as_str());
    if low == String::from_str("n") {
        Some(NavCommand::Next)
    } else if low == String::from_str("p") {
        Some(NavCommand::Previous)
    } else if low == String::from_str("s") {
        Some(NavCommand::Select)
    } else if low == String::from_str("e") {
        Some(NavCommand::Exit)
    } else {
        None
    }
}

/// One navigation step: `Next` and `Previous` move by one page and clamp
/// silently at the last and first page; `Select` and `Exit` leave the page
/// to their own handling.
pub fn nav_step(page: i64, total: i64, cmd: NavCommand) -> (r: i64)
    requires
        1 <= page <= total,
    ensures
        cmd == NavCommand::Next ==> r as int == (if page < total {
            page as int + 1
        } else {
            page as int
        }),
        cmd == NavCommand::Previous ==> r as int == (if page > 1 {
            page as int - 1
        } else {
            page as int
        }),
        (cmd == NavCommand::Select || cmd == NavCommand::Exit) ==> r == page,
        1 <= r <= total,
{
    match cmd {
        NavCommand::Next => {
            if page < total {
                page + 1
            } else {
                page
            }
        },
        NavCommand::Previous => {
            if page > 1 {
                page - 1
            } else {
                page
            }
        },
        NavCommand::Select => page,
        NavCommand::Exit => page,
    }
}

/// The command prompt printed before every navigation read.
pub open spec fn nav_prompt() -> Seq<char> {
    "Press N to view the next page, P for previous, S for a specific page, or E to Exit."@
}

/// The prompt printed when a specific page is asked for.
pub open spec fn page_prompt() -> Seq<char> {
    "Enter the page you would like to view."@
}

/// The four commands offered at every page.
pub open spec fn nav_choice_views() -> Seq<Seq<char>> {
    seq!["N"@, "P"@, "S"@, "E"@]
}

/// The page numbers offered by a jump: 1 through the page count.
pub open spec fn page_choices_spec(total: int) -> Seq<i64> {
    Seq::new(total as nat, |k: int| (k + 1) as i64)
}

/// What the clear-on-update flag emits at the end of one iteration.
pub open spec fn clear_out(clear: bool) -> Seq<Seq<char>> {
    if clear {
        seq![clear_sequence()]
    } else {
        Seq::empty()
    }
}

/// The rest of a navigator session, taken up just after the current page
/// was rendered and the command prompt printed (or, with `awaiting_page`,
/// just after the page prompt): what the session prints from the pending
/// line at `from` on, and the index of the line accepted as the exit
/// command (`None` when the stream ends first). A rejected line prints its
/// diagnostics and the prompt again; an accepted `N`, `P` or page number
/// clamps or jumps and re-renders; an accepted `S` asks for a page number;
/// an accepted `E` ends the session after the optional clear, without
/// re-rendering. Each clear precedes the next render.
pub open spec fn session_steps(
    lines: Seq<String>,
    from: int,
    page: int,
    awaiting_page: bool,
    header: Option<Seq<char>>,
    items: Seq<String>,
    per_page: int,
    total: int,
    clear: bool,
) -> (Seq<Seq<char>>, Option<int>)
    decreases lines.len() - from,
{
    if from < 0 || from >= lines.len() {
        (Seq::empty(), None)
    } else if awaiting_page {
        if num_choice_ok(lines[from]@, page_choices_spec(total)) {
            let p2 = spec_parse_i64(trim_of(lines[from]@))->0 as int;
            let rest = session_steps(lines, from + 1, p2, false, header, items, per_page, total, clear);
            (
                clear_out(clear) + render_out(header, items, p2, per_page, total)
                    + seq![nav_prompt()] + rest.0,
                rest.1,
            )
        } else {
            let rest = session_steps(lines, from + 1, page, true, header, items, per_page, total, clear);
            (
                num_choice_fail_out(lines[from]@, page_choices_spec(total), false)
                    + seq![page_prompt()] + rest.0,
                rest.1,
            )
        }
    } else {
        if !str_choice_ok(lines[from]@, nav_choice_views(), false) {
            let rest = session_steps(lines, from + 1, page, false, header, items, per_page, total, clear);
            (
                str_choice_fail_out(lines[from]@, nav_choice_views(), false, true)
                    + seq![nav_prompt()] + rest.0,
                rest.1,
            )
        } else {
            match spec_parse_nav(trim_of(lines[from]@)) {
                Some(NavCommand::Exit) => (clear_out(clear), Some(from)),
                Some(NavCommand::Next) => {
                    let p2 = if page < total {
                        page + 1
                    } else {
                        page
                    };
                    let rest = session_steps(lines, from + 1, p2, false, header, items, per_page, total, clear);
                    (
                        clear_out(clear) + render_out(header, items, p2, per_page, total)
                            + seq![nav_prompt()] + rest.0,
                        rest.1,
                    )
                },
                Some(NavCommand::Previous) => {
                    let p2 = if page > 1 {
                        page - 1
                    } else {
                        page
                    };
                    let rest = session_steps(lines, from + 1, p2, false, header, items, per_page, total, clear);
                    (
                        clear_out(clear) + render_out(header, items, p2, per_page, total)
                            + seq![nav_prompt()] + rest.0,
                        rest.1,
                    )
                },
                Some(NavCommand::Select) => {
                    let rest = session_steps(lines, from + 1, page, true, header, items, per_page, total, clear);
                    (seq![page_prompt()] + rest.0, rest.1)
                },
                None => {
                    let rest = session_steps(lines, from + 1, page, false, header, items, per_page, total, clear);
                    (
                        clear_out(clear) + render_out(header, items, page, per_page, total)
                            + seq![nav_prompt()] + rest.0,
                        rest.1,
                    )
                },
            }
        }
    }
}

/// A whole navigator session over the pending lines: the render of the
/// first page, the command prompt, and everything `session_steps` prints
/// after them; and the index of the accepted exit command, if any.
pub open spec fn session(
    lines: Seq<String>,
    header: Option<Seq<char>>,
    items: Seq<String>,
    per_page: int,
    total: int,
    clear: bool,
) -> (Seq<Seq<char>>, Option<int>) {
    let steps = session_steps(lines, 0, 1, false, header, items, per_page, total, clear);
    (
        render_out(header, items, 1, per_page, total) + seq![nav_prompt()] + steps.0,
        steps.1,
    )
}

proof fn lemma_first_str_skip(
    lines: Seq<String>,
    k: int,
    j: int,
    cs: Seq<Seq<char>>,
    case_sensitive: bool,
)
    requires
        0 <= k,
        0 <= j,
        k + j <= lines.len(),
    ensures
        ({
            let a = first_str_choice(lines.skip(k), j, cs, case_sensitive);
            let b = first_str_choice(lines, k + j, cs, case_sensitive);
            &&& (a is None <==> b is None)
            &&& (a is Some ==> b == Some(a->0 + k) && j <= a->0 < lines.len() - k)
        }),
    decreases lines.len() - k - j,
{
    if k + j < lines.len() {
        if !str_choice_ok(lines.skip(k)[j]@, cs, case_sensitive) {
            lemma_first_str_skip(lines, k, j + 1, cs, case_sensitive);
        }
    }
}

proof fn lemma_first_num_skip(lines: Seq<String>, k: int, j: int, cs: Seq<i64>)
    requires
        0 <= k,
        0 <= j,
        k + j <= lines.len(),
    ensures
        ({
            let a = first_num_choice(lines.skip(k), j, cs);
            let b = first_num_choice(lines, k + j, cs);
            &&& (a is None <==> b is None)
            &&& (a is Some ==> b == Some(a->0 + k) && j <= a->0 < lines.len() - k)
        }),
    decreases lines.len() - k - j,
{
    if k + j < lines.len() {
        if !num_choice_ok(lines.skip(k)[j]@, cs) {
            lemma_first_num_skip(lines, k, j + 1, cs);
        }
    }
}

proof fn lemma_str_attempts_skip(
    lines: Seq<String>,
    k: int,
    j: int,
    to: int,
    cs: Seq<Seq<char>>,
    case_sensitive: bool,
    show: bool,
    repeat: Option<Seq<char>>,
)
    requires
        0 <= k,
        0 <= j <= to,
        k + to <= lines.len(),
    ensures
        str_choice_attempts(lines.skip(k), j, to, cs, case_sensitive, show, repeat)
            == str_choice_attempts(lines, k + j, k + to, cs, case_sensitive, show, repeat),
    decreases to - j,
{
    if j < to {
        lemma_str_attempts_skip(lines, k, j, to - 1, cs, case_sensitive, show, repeat);
    }
}

proof fn lemma_num_attempts_skip(
    lines: Seq<String>,
    k: int,
    j: int,
    to: int,
    cs: Seq<i64>,
    show: bool,
    repeat: Option<Seq<char>>,
)
    requires
        0 <= k,
        0 <= j <= to,
        k + to <= lines.len(),
    ensures
        num_choice_attempts(lines.skip(k), j, to, cs, show, repeat) == num_choice_attempts(
            lines,
            k + j,
            k + to,
            cs,
            show,
            repeat,
        ),
    decreases to - j,
{
    if j < to {
        lemma_num_attempts_skip(lines, k, j, to - 1, cs, show, repeat);
    }
}

proof fn lemma_str_attempts_front(
    lines: Seq<String>,
    from: int,
    to: int,
    cs: Seq<Seq<char>>,
    case_sensitive: bool,
    show: bool,
    repeat: Option<Seq<char>>,
)
    requires
        0 <= from < to <= lines.len(),
    ensures
        str_choice_attempts(lines, from, to, cs, case_sensitive, show, repeat) == str_choice_fail_out(
            lines[from]@,
            cs,
            case_sensitive,
            show,
        ) + opt_out(repeat) + str_choice_attempts(lines, from + 1, to, cs, case_sensitive, show, repeat),
    decreases to - from,
{
    if to == from + 1 {
        assert(str_choice_attempts(lines, from, to, cs, case_sensitive, show, repeat)
            =~= str_choice_fail_out(lines[from]@, cs, case_sensitive, show) + opt_out(repeat)
            + str_choice_attempts(lines, from + 1, to, cs, case_sensitive, show, repeat));
    } else {
        lemma_str_attempts_front(lines, from, to - 1, cs, case_sensitive, show, repeat);
        assert(str_choice_attempts(lines, from, to, cs, case_sensitive, show, repeat)
            == str_choice_attempts(lines, from, to - 1, cs, case_sensitive, show, repeat)
            + str_choice_fail_out(lines[to - 1]@, cs, case_sensitive, show) + opt_out(repeat));
        assert(str_choice_attempts(lines, from + 1, to, cs, case_sensitive, show, repeat)
            == str_choice_attempts(lines, from + 1, to - 1, cs, case_sensitive, show, repeat)
            + str_choice_fail_out(lines[to - 1]@, cs, case_sensitive, show) + opt_out(repeat));
        assert(str_choice_attempts(lines, from, to, cs, case_sensitive, show, repeat)
            =~= str_choice_fail_out(lines[from]@, cs, case_sensitive, show) + opt_out(repeat)
            + str_choice_attempts(lines, from + 1, to, cs, case_sensitive, show, repeat));
    }
}

proof fn lemma_num_attempts_front(
    lines: Seq<String>,
    from: int,
    to: int,
    cs: Seq<i64>,
    show: bool,
    repeat: Option<Seq<char>>,
)
    requires
        0 <= from < to <= lines.len(),
    ensures
        num_choice_attempts(lines, from, to, cs, show, repeat) == num_choice_fail_out(
            lines[from]@,
            cs,
            show,
        ) + opt_out(repeat) + num_choice_attempts(lines, from + 1, to, cs, show, repeat),
    decreases to - from,
{
    if to == from + 1 {
        assert(num_choice_attempts(lines, from, to, cs, show, repeat) =~= num_choice_fail_out(
            lines[from]@,
            cs,
            show,
        ) + opt_out(repeat) + num_choice_attempts(lines, from + 1, to, cs, show, repeat));
    } else {
        lemma_num_attempts_front(lines, from, to - 1, cs, show, repeat);
        assert(num_choice_attempts(lines, from, to, cs, show, repeat) == num_choice_attempts(
            lines,
            from,
            to - 1,
            cs,
            show,
            repeat,
        ) + num_choice_fail_out(lines[to - 1]@, cs, show) + opt_out(repeat));
        assert(num_choice_attempts(lines, from + 1, to, cs, show, repeat) == num_choice_attempts(
            lines,
            from + 1,
            to - 1,
            cs,
            show,
            repeat,
        ) + num_choice_fail_out(lines[to - 1]@, cs, show) + opt_out(repeat));
        assert(num_choice_attempts(lines, from, to, cs, show, repeat) =~= num_choice_fail_out(
            lines[from]@,
            cs,
            show,
        ) + opt_out(repeat) + num_choice_attempts(lines, from + 1, to, cs, show, repeat));
    }
}

proof fn lemma_cat2(o: Seq<Seq<char>>, a: Seq<Seq<char>>, b: Seq<Seq<char>>)
    ensures
        o + (a + b) == (o + a) + b,
{
    assert(o + (a + b) =~= (o + a) + b);
}

proof fn lemma_cat3(o: Seq<Seq<char>>, a: Seq<Seq<char>>, b: Seq<Seq<char>>, c: Seq<Seq<char>>)
    ensures
        o + ((a + b) + c) == ((o + a) + b) + c,
{
    assert(o + ((a + b) + c) =~= ((o + a) + b) + c);
}

proof fn lemma_cat4(
    o: Seq<Seq<char>>,
    a: Seq<Seq<char>>,
    b: Seq<Seq<char>>,
    c: Seq<Seq<char>>,
    d: Seq<Seq<char>>,
)
    ensures
        o + (((a + b) + c) + d) == (((o + a) + b) + c) + d,
{
    assert(o + (((a + b) + c) + d) =~= (((o + a) + b) + c) + d);
}

proof fn lemma_cat_empty(o: Seq<Seq<char>>)
    ensures
        o + Seq::<Seq<char>>::empty() == o,
{
    assert(o + Seq::<Seq<char>>::empty() =~= o);
}

/// Unrolls the session over the lines rejected as commands: up to the
/// first accepted command the session prints exactly the failed attempts'
/// diagnostics, each followed by the command prompt; with no accepted
/// command it prints them all and ends without an exit.
proof fn lemma_session_cmd(
    lines: Seq<String>,
    from: int,
    page: int,
    header: Option<Seq<char>>,
    items: Seq<String>,
    per_page: int,
    total: int,
    clear: bool,
)
    requires
        0 <= from <= lines.len(),
    ensures
        ({
            let s = session_steps(lines, from, page, false, header, items, per_page, total, clear);
            match first_str_choice(lines, from, nav_choice_views(), false) {
                None => s == (
                    str_choice_attempts(
                        lines,
                        from,
                        lines.len() as int,
                        nav_choice_views(),
                        false,
                        true,
                        Some(nav_prompt()),
                    ),
                    None::<int>,
                ),
                Some(i) => {
                    let cont = session_steps(lines, i, page, false, header, items, per_page, total, clear);
                    &&& from <= i < lines.len()
                    &&& str_choice_ok(lines[i]@, nav_choice_views(), false)
                    &&& s.0 == str_choice_attempts(
                        lines,
                        from,
                        i,
                        nav_choice_views(),
                        false,
                        true,
                        Some(nav_prompt()),
                    ) + cont.0
                    &&& s.1 == cont.1
                },
            }
        }),
    decreases lines.len() - from,
{
    let s = session_steps(lines, from, page, false, header, items, per_page, total, clear);
    if from >= lines.len() {
    } else if str_choice_ok(lines[from]@, nav_choice_views(), false) {
        assert(s.0 =~= str_choice_attempts(
            lines,
            from,
            from,
            nav_choice_views(),
            false,
            true,
            Some(nav_prompt()),
        ) + s.0);
    } else {
        lemma_session_cmd(lines, from + 1, page, header, items, per_page, total, clear);
        match first_str_choice(lines, from, nav_choice_views(), false) {
            None => {
                lemma_str_attempts_front(
                    lines,
                    from,
                    lines.len() as int,
                    nav_choice_views(),
                    false,
                    true,
                    Some(nav_prompt()),
                );
                assert(s.0 =~= str_choice_attempts(
                    lines,
                    from,
                    lines.len() as int,
                    nav_choice_views(),
                    false,
                    true,
                    Some(nav_prompt()),
                ));
            },
            Some(i) => {
                lemma_str_attempts_front(
                    lines,
                    from,
                    i,
                    nav_choice_views(),
                    false,
                    true,
                    Some(nav_prompt()),
                );
                let cont = session_steps(lines, i, page, false, header, items, per_page, total, clear);
                assert(s.0 =~= str_choice_attempts(
                    lines,
                    from,
                    i,
                    nav_choice_views(),
                    false,
                    true,
                    Some(nav_prompt()),
                ) + cont.0);
            },
        }
    }
}

/// The same unrolling for the lines rejected as page numbers, up to the
/// first accepted jump target.
proof fn lemma_session_page(
    lines: Seq<String>,
    from: int,
    page: int,
    header: Option<Seq<char>>,
    items: Seq<String>,
    per_page: int,
    total: int,
    clear: bool,
)
    requires
        0 <= from <= lines.len(),
    ensures
        ({
            let s = session_steps(lines, from, page, true, header, items, per_page, total, clear);
            match first_num_choice(lines, from, page_choices_spec(total)) {
                None => s == (
                    num_choice_attempts(
                        lines,
                        from,
                        lines.len() as int,
                        page_choices_spec(total),
                        false,
                        Some(page_prompt()),
                    ),
                    None::<int>,
                ),
                Some(i) => {
                    let cont = session_steps(lines, i, page, true, header, items, per_page, total, clear);
                    &&& from <= i < lines.len()
                    &&& num_choice_ok(lines[i]@, page_choices_spec(total))
                    &&& s.0 == num_choice_attempts(
                        lines,
                        from,
                        i,
                        page_choices_spec(total),
                        false,
                        Some(page_prompt()),
                    ) + cont.0
                    &&& s.1 == cont.1
                },
            }
        }),
    decreases lines.len() - from,
{
    let s = session_steps(lines, from, page, true, header, items, per_page, total, clear);
    if from >= lines.len() {
    } else if num_choice_ok(lines[from]@, page_choices_spec(total)) {
        assert(s.0 =~= num_choice_attempts(
            lines,
            from,
            from,
            page_choices_spec(total),
            false,
            Some(page_prompt()),
        ) + s.0);
    } else {
        lemma_session_page(lines, from + 1, page, header, items, per_page, total, clear);
        match first_num_choice(lines, from, page_choices_spec(total)) {
            None => {
                lemma_num_attempts_front(
                    lines,
                    from,
                    lines.len() as int,
                    page_choices_spec(total),
                    false,
                    Some(page_prompt()),
                );
                assert(s.0 =~= num_choice_attempts(
                    lines,
                    from,
                    lines.len() as int,
                    page_choices_spec(total),
                    false,
                    Some(page_prompt()),
                ));
            },
            Some(i) => {
                lemma_num_attempts_front(
                    lines,
                    from,
                    i,
                    page_choices_spec(total),
                    false,
                    Some(page_prompt()),
                );
                let cont = session_steps(lines, i, page, true, header, items, per_page, total, clear);
                assert(s.0 =~= num_choice_attempts(
                    lines,
                    from,
                    i,
                    page_choices_spec(total),
                    false,
                    Some(page_prompt()),
                ) + cont.0);
            },
        }
    }
}

/// Renders a paginated list and interprets navigation commands until the
/// user exits: `N` and `P` move by one page and clamp at the ends, `S`
/// jumps to a chosen page, `E` exits. A non-positive page size is refused
/// at once; the end of the input stream is fatal. The current page always
/// stays within `[1, page count]`.
#[verifier::rlimit(100)]
pub fn paginated_list(
    con: &mut Console,
    header_message: Option<&str>,
    items: &Vec<String>,
    items_per_page: i64,
    clear_on_update: bool,
) -> (r: Result<(), CliError>)
    requires
        items@.len() <= i64::MAX,
    ensures
        items_per_page <= 0 <==> r == Err::<(), CliError>(CliError::InvalidItemsPerPage),
        r == Err::<(), CliError>(CliError::InvalidItemsPerPage) ==> *final(con) == *old(con),
        items_per_page > 0 ==> ({
            let total = spec_page_count(items@.len() as int, items_per_page as int);
            let s = session(
                old(con).input@,
                opt_view(header_message),
                items@,
                items_per_page as int,
                total,
                clear_on_update,
            );
            &&& final(con).out_views() == old(con).out_views() + s.0
            &&& match s.1 {
                Some(end) => r == Ok::<(), CliError>(()) && final(con).input@
                    == old(con).input@.skip(end + 1),
                None => r == Err::<(), CliError>(CliError::InputClosed)
                    && final(con).input@.len() == 0,
            }
        }),
{
    if items_per_page <= 0 {
        return Err(CliError::InvalidItemsPerPage);
    }
    let number_of_items: i64 = items.len() as i64;
    let number_of_pages: i64 = page_count(number_of_items, items_per_page);
    let mut current_page: i64 = 1;
    let ghost lines = old(con).input@;
    let ghost hdr = opt_view(header_message);
    let ghost per = items_per_page as int;
    let ghost total_g = number_of_pages as int;
    let ghost target = session_steps(
        lines,
        0,
        1,
        false,
        hdr,
        items@,
        per,
        total_g,
        clear_on_update,
    );
    let ghost goal = old(con).out_views() + render_out(hdr, items@, 1, per, total_g)
        + seq![nav_prompt()] + target.0;
    let ghost mut consumed: int = 0;
    proof {
        lemma_cat3(
            old(con).out_views(),
            render_out(hdr, items@, 1, per, total_g),
            seq![nav_prompt()],
            target.0,
        );
    }
    loop
        invariant
            items_per_page > 0,
            items@.len() <= i64::MAX,
            number_of_items as int == items@.len() as int,
            number_of_pages as int == spec_page_count(number_of_items as int, items_per_page as int),
            1 <= current_page <= number_of_pages,
            lines == old(con).input@,
            hdr == opt_view(header_message),
            per == items_per_page as int,
            total_g == number_of_pages as int,
            target == session_steps(lines, 0, 1, false, hdr, items@, per, total_g, clear_on_update),
            goal == old(con).out_views() + render_out(hdr, items@, 1, per, total_g)
                + seq![nav_prompt()] + target.0,
            goal == old(con).out_views() + (render_out(hdr, items@, 1, per, total_g)
                + seq![nav_prompt()] + target.0),
            0 <= consumed <= lines.len(),
            con.input@ == lines.skip(consumed),
            goal == con.out_views() + render_out(hdr, items@, current_page as int, per, total_g)
                + seq![nav_prompt()] + session_steps(
                lines,
                consumed,
                current_page as int,
                false,
                hdr,
                items@,
                per,
                total_g,
                clear_on_update,
            ).0,
            target.1 == session_steps(
                lines,
                consumed,
                current_page as int,
                false,
                hdr,
                items@,
                per,
                total_g,
                clear_on_update,
            ).1,
        decreases con.input@.len(),
    {
        let ghost consumed0 = consumed;
        let ghost page_in = current_page as int;
        let ghost s_in = session_steps(
            lines,
            consumed0,
            page_in,
            false,
            hdr,
            items@,
            per,
            total_g,
            clear_on_update,
        );
        render_page(
            con,
            header_message,
            items,
            current_page,
            items_per_page,
            number_of_pages,
        );
        let ghost out1 = con.out_views();
        proof {
            assert(goal == (out1 + seq![nav_prompt()]) + s_in.0);
        }
        let nav_choices: Vec<&str> = vec!["N", "P", "S", "E"];
        proof {
            assert(crate::console::str_views(nav_choices@) =~= nav_choice_views());
        }
        let command = match select_string_from_choices(
            con,
            Some(
                "Press N to view the next page, P for previous, S for a specific page, or E to Exit.",
            ),
            Some(
                "Press N to view the next page, P for previous, S for a specific page, or E to Exit.",
            ),
            nav_choices,
            false,
            true,
        ) {
            Ok(command) => command,
            Err(e) => {
                proof {
                    lemma_first_str_skip(lines, consumed0, 0, nav_choice_views(), false);
                    lemma_session_cmd(
                        lines,
                        consumed0,
                        page_in,
                        hdr,
                        items@,
                        per,
                        total_g,
                        clear_on_update,
                    );
                    lemma_str_attempts_skip(
                        lines,
                        consumed0,
                        0,
                        lines.len() - consumed0,
                        nav_choice_views(),
                        false,
                        true,
                        Some(nav_prompt()),
                    );
                    assert(final(con).out_views() == (out1 + seq![nav_prompt()]) + s_in.0);
                }
                return Err(e);
            },
        };
        let ghost i0 = first_str_choice(lines.skip(consumed0), 0, nav_choice_views(), false)->0;
        let ghost cmd_at = consumed0 + i0;
        let ghost s_mid = session_steps(
            lines,
            cmd_at,
            page_in,
            false,
            hdr,
            items@,
            per,
            total_g,
            clear_on_update,
        );
        proof {
            lemma_first_str_skip(lines, consumed0, 0, nav_choice_views(), false);
            lemma_session_cmd(lines, consumed0, page_in, hdr, items@, per, total_g, clear_on_update);
            lemma_str_attempts_skip(
                lines,
                consumed0,
                0,
                i0,
                nav_choice_views(),
                false,
                true,
                Some(nav_prompt()),
            );
            let a = str_choice_attempts(
                lines,
                consumed0,
                cmd_at,
                nav_choice_views(),
                false,
                true,
                Some(nav_prompt()),
            );
            assert(con.out_views() == ((out1 + seq![nav_prompt()]) + a));
            lemma_cat2(out1 + seq![nav_prompt()], a, s_mid.0);
            assert(goal == con.out_views() + s_mid.0);
            assert(target.1 == s_mid.1);
            assert(command@ == trim_of(lines[cmd_at]@));
            assert(con.input@ =~= lines.skip(cmd_at + 1));
        }
        let mut quit = false;
        let ghost mut rest = s_mid;
        match parse_nav(&command) {
            Some(NavCommand::Next) => {
                current_page = nav_step(current_page, number_of_pages, NavCommand::Next);
                proof {
                    rest = session_steps(
                        lines,
                        cmd_at + 1,
                        current_page as int,
                        false,
                        hdr,
                        items@,
                        per,
                        total_g,
                        clear_on_update,
                    );
                    assert(s_mid.0 == ((clear_out(clear_on_update) + render_out(
                        hdr,
                        items@,
                        current_page as int,
                        per,
                        total_g,
                    )) + seq![nav_prompt()]) + rest.0);
                    assert(s_mid.1 == rest.1);
                    consumed = cmd_at + 1;
                }
            },
            Some(NavCommand::Previous) => {
                current_page = nav_step(current_page, number_of_pages, NavCommand::Previous);
                proof {
                    rest = session_steps(
                        lines,
                        cmd_at + 1,
                        current_page as int,
                        false,
                        hdr,
                        items@,
                        per,
                        total_g,
                        clear_on_update,
                    );
                    assert(s_mid.0 == ((clear_out(clear_on_update) + render_out(
                        hdr,
                        items@,
                        current_page as int,
                        per,
                        total_g,
                    )) + seq![nav_prompt()]) + rest.0);
                    assert(s_mid.1 == rest.1);
                    consumed = cmd_at + 1;
                }
            },
            Some(NavCommand::Select) => {
                let mut page_choices: Vec<i64> = Vec::new();
                let mut p: i64 = 1;
                loop
                    invariant_except_break
                        1 <= p <= number_of_pages,
                        page_choices@.len() == p - 1,
                        forall|k: int| 0 <= k < p - 1 ==> page_choices@[k] == k + 1,
                    ensures
                        page_choices@.len() == number_of_pages,
                        forall|k: int| 0 <= k < number_of_pages ==> page_choices@[k] == k + 1,
                    decreases number_of_pages - p,
                {
                    page_choices.push(p);
                    if p == number_of_pages {
                        break ;
                    }
                    p = p + 1;
                }
                let ghost cs = page_choices@;
                let ghost out3 = con.out_views();
                let ghost s_pg = session_steps(
                    lines,
                    cmd_at + 1,
                    page_in,
                    true,
                    hdr,
                    items@,
                    per,
                    total_g,
                    clear_on_update,
                );
                proof {
                    assert(cs =~= page_choices_spec(total_g));
                    assert(s_mid.0 == seq![page_prompt()] + s_pg.0);
                    assert(s_mid.1 == s_pg.1);
                    lemma_cat2(out3, seq![page_prompt()], s_pg.0);
                    assert(goal == (out3 + seq![page_prompt()]) + s_pg.0);
                }
                match select_number_from_choices(
                    con,
                    Some("Enter the page you would like to view."),
                    Some("Enter the page you would like to view."),
                    page_choices,
                    false,
                ) {
                    Ok(selected) => {
                        proof {
                            assert(num_is_member(selected, cs));
                            let k = choose|k: int| 0 <= k < cs.len() && cs[k] == selected;
                            assert(1 <= selected <= number_of_pages);
                            lemma_first_num_skip(lines, cmd_at + 1, 0, page_choices_spec(total_g));
                            let j0 = first_num_choice(
                                lines.skip(cmd_at + 1),
                                0,
                                page_choices_spec(total_g),
                            )->0;
                            let pg_at = cmd_at + 1 + j0;
                            lemma_session_page(
                                lines,
                                cmd_at + 1,
                                page_in,
                                hdr,
                                items@,
                                per,
                                total_g,
                                clear_on_update,
                            );
                            lemma_num_attempts_skip(
                                lines,
                                cmd_at + 1,
                                0,
                                j0,
                                page_choices_spec(total_g),
                                false,
                                Some(page_prompt()),
                            );
                            let a2 = num_choice_attempts(
                                lines,
                                cmd_at + 1,
                                pg_at,
                                page_choices_spec(total_g),
                                false,
                                Some(page_prompt()),
                            );
                            let s_pga = session_steps(
                                lines,
                                pg_at,
                                page_in,
                                true,
                                hdr,
                                items@,
                                per,
                                total_g,
                                clear_on_update,
                            );
                            assert(con.out_views() == (out3 + seq![page_prompt()]) + a2);
                            lemma_cat2(out3 + seq![page_prompt()], a2, s_pga.0);
                            assert(goal == con.out_views() + s_pga.0);
                            assert(target.1 == s_pga.1);
                            rest = session_steps(
                                lines,
                                pg_at + 1,
                                selected as int,
                                false,
                                hdr,
                                items@,
                                per,
                                total_g,
                                clear_on_update,
                            );
                            assert(s_pga.0 == ((clear_out(clear_on_update) + render_out(
                                hdr,
                                items@,
                                selected as int,
                                per,
                                total_g,
                            )) + seq![nav_prompt()]) + rest.0);
                            assert(s_pga.1 == rest.1);
                            assert(con.input@ =~= lines.skip(pg_at + 1));
                            consumed = pg_at + 1;
                        }
                        current_page = selected;
                    },
                    Err(e) => {
                        proof {
                            lemma_first_num_skip(lines, cmd_at + 1, 0, page_choices_spec(total_g));
                            lemma_session_page(
                                lines,
                                cmd_at + 1,
                                page_in,
                                hdr,
                                items@,
                                per,
                                total_g,
                                clear_on_update,
                            );
                            lemma_num_attempts_skip(
                                lines,
                                cmd_at + 1,
                                0,
                                lines.len() - (cmd_at + 1),
                                page_choices_spec(total_g),
                                false,
                                Some(page_prompt()),
                            );
                            assert(final(con).out_views() == (out3 + seq![page_prompt()]) + s_pg.0);
                        }
                        return Err(e);
                    },
                }
            },
            Some(NavCommand::Exit) => {
                quit = true;
                proof {
                    assert(s_mid == (clear_out(clear_on_update), Some(cmd_at)));
                }
            },
            None => {
                proof {
                    rest = session_steps(
                        lines,
                        cmd_at + 1,
                        page_in,
                        false,
                        hdr,
                        items@,
                        per,
                        total_g,
                        clear_on_update,
                    );
                    assert(s_mid.0 == ((clear_out(clear_on_update) + render_out(
                        hdr,
                        items@,
                        current_page as int,
                        per,
                        total_g,
                    )) + seq![nav_prompt()]) + rest.0);
                    assert(s_mid.1 == rest.1);
                    consumed = cmd_at + 1;
                }
            },
        }
        let ghost out_pre_clear = con.out_views();
        if clear_on_update {
            clear_terminal(con);
        }
        proof {
            assert(con.out_views() == out_pre_clear + clear_out(clear_on_update)) by {
                if !clear_on_update {
                    lemma_cat_empty(out_pre_clear);
                }
            }
        }
        if quit {
            proof {
                assert(goal == out_pre_clear + s_mid.0);
                assert(final(con).out_views() == goal);
                assert(target.1 == Some(cmd_at));
            }
            return Ok(());
        }
        proof {
            assert(goal == out_pre_clear + ((((clear_out(clear_on_update) + render_out(
                hdr,
                items@,
                current_page as int,
                per,
                total_g,
            )) + seq![nav_prompt()]) + rest.0)));
            lemma_cat4(
                out_pre_clear,
                clear_out(clear_on_update),
                render_out(hdr, items@, current_page as int, per, total_g),
                seq![nav_prompt()],
                rest.0,
            );
            assert(goal == con.out_views() + render_out(hdr, items@, current_page as int, per, total_g)
                + seq![nav_prompt()] + rest.0);
        }
    }
}


} // verus!
