//! Interactive command-line input helpers: prompting for strings and numbers
//! with validation (length, range, emptiness), selecting a value from an
//! enumerated set of choices, and rendering a paginated, navigable list.
//!
//! All logic works over a [`Console`] value that holds the pending input
//! lines and the lines written so far, so that every operation is a pure
//! function of its arguments; feeding the console from a real terminal is
//! left to the embedding program.

pub mod console;
pub mod input;
pub mod messages;
pub mod numfmt;
pub mod pages;
pub mod parse;
pub mod text;
pub mod validate;

pub use pages::clear_terminal;
pub use pages::page_count;
pub use pages::paginated_list;
pub use pages::print_list;
pub use pages::NavCommand;
pub use input::get_number;
pub use input::get_string;
pub use input::select_number_from_choices;
pub use input::select_string_from_choices;
pub use validate::check_empty;
pub use validate::check_length;
pub use validate::check_min_max;
pub use validate::check_number_is_a_choice;
pub use validate::check_string_is_a_choice;

pub use console::CliError;
pub use console::Console;
pub use console::print_prompt;
