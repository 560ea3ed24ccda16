//! A line-oriented console modeled as plain values, and the errors that are
//! fatal to an input operation.

use vstd::prelude::*;
use vstd::string::StringExecFns;

verus! {

/// A fatal condition: these abort the running operation at once and are
/// surfaced to the caller instead of being retried.
#[derive(Clone, Copy, Debug, PartialEq, Eq, Structural)]
pub enum CliError {
    /// A selection operation was handed an empty candidate set.
    EmptyChoices,
    /// Pagination was asked for a non-positive number of items per page.
    InvalidItemsPerPage,
    /// The input stream ended while an operation still needed a line.
    InputClosed,
}

/// The character sequences of a sequence of strings, in order.
pub open spec fn views_of(lines: Seq<String>) -> Seq<Seq<char>> {
    Seq::new(lines.len(), |i: int| lines[i]@)
}

/// The character sequences of a sequence of string slices, in order.
pub open spec fn str_views(lines: Seq<&str>) -> Seq<Seq<char>> {
    Seq::new(lines.len(), |i: int| lines[i]@)
}

pub proof fn lemma_views_push(lines: Seq<String>, x: String)
    ensures
        views_of(lines.push(x)) == views_of(lines).push(x@),
{
    assert(views_of(lines.push(x)) =~= views_of(lines).push(x@));
}

/// The standard input/output pair as a value: `input` holds the lines not
/// yet read (first to be read at index 0), `output` the lines written so
/// far, oldest first.
pub struct Console {
    pub input: Vec<String>,
    pub output: Vec<String>,
}

impl Console {
    /// The character sequences of the lines written so far.
    pub open spec fn out_views(&self) -> Seq<Seq<char>> {
        views_of(self.output@)
    }

    /// A console that will serve the given lines and has written nothing.
    pub fn new(input: Vec<String>) -> (c: Console)
        ensures
            c.input == input,
            c.output@ == Seq::<String>::empty(),
    {
        Console { input, output: Vec::new() }
    }

    /// Takes the next pending line, or reports the end of the stream.
    pub fn read_line(&mut self) -> (r: Option<String>)
        ensures
            old(self).input@.len() == 0 ==> r is None && *final(self) == *old(self),
            old(self).input@.len() > 0 ==> {
                &&& r == Some(old(self).input@[0])
                &&& final(self).input@ == old(self).input@.drop_first()
                &&& final(self).output == old(self).output
            },
    {
        if self.input.len() > 0 {
            let line = self.input.remove(0);
            proof {
                assert(old(self).input@.remove(0) =~= old(self).input@.drop_first());
            }
            Some(line)
        } else {
            None
        }
    }

    /// Appends one line to the written output.
    pub fn write_line(&mut self, line: String)
        ensures
            final(self).input == old(self).input,
            final(self).output@ == old(self).output@.push(line),
            final(self).out_views() == old(self).out_views().push(line@),
    {
        let ghost pre = self.output@;
        self.output.push(line);
        proof {
            lemma_views_push(pre, self.output@.last());
            assert(pre.push(self.output@.last()) =~= self.output@);
        }
    }
}

/// The character sequence of an optional prompt.
pub open spec fn opt_view(p: Option<&str>) -> Option<Seq<char>> {
    match p {
        Some(s) => Some(s@),
        None => None,
    }
}

/// The lines that printing an optional text produces: one line when the
/// text is present, none when it is absent.
pub open spec fn opt_out(p: Option<Seq<char>>) -> Seq<Seq<char>> {
    match p {
        Some(s) => seq![s],
        None => Seq::empty(),
    }
}

/// Prints a prompt when one is supplied; reports whether it did.
pub fn print_prompt(con: &mut Console, prompt: Option<&str>) -> (r: bool)
    ensures
        r == (prompt is Some),
        final(con).input == old(con).input,
        final(con).out_views() == old(con).out_views() + opt_out(opt_view(prompt)),
{
    match prompt {
        Some(input_prompt) => {
            con.write_line(String::from_str(input_prompt));
            proof {
                lemma_views_push(old(con).output@, final(con).output@.last());
                assert(final(con).out_views() =~= old(con).out_views() + opt_out(
                    opt_view(prompt),
                ));
            }
            true
        },
        None => {
            proof {
                assert(final(con).out_views() =~= old(con).out_views() + opt_out(
                    opt_view(prompt),
                ));
            }
            false
        },
    }
}

} // verus!
