use simple_cli::check_empty;
use simple_cli::check_length;
use simple_cli::check_min_max;
use simple_cli::check_number_is_a_choice;
use simple_cli::check_string_is_a_choice;
use simple_cli::print_prompt;
use simple_cli::Console;

fn fresh() -> Console {
    Console::new(Vec::new())
}

#[test]
fn test_print_prompt() {
    let no_prompt: Option<&str> = None;
    let some_prompt: Option<&str> = Some("Test Message.");
    let mut con = fresh();
    assert_eq!(print_prompt(&mut con, no_prompt), false);
    assert_eq!(print_prompt(&mut con, some_prompt), true);
    assert_eq!(con.output, vec!["Test Message.".to_string()]);
}

#[test]
fn test_check_length() {
    let no_max_length: Option<usize> = None;
    let yes_max_length: Option<usize> = Some(10);
    let small_string = "hi";
    let big_string = "abcuiwehfuewnfiuewnf";
    let mut con = fresh();
    assert_eq!(check_length(&mut con, small_string.len(), no_max_length), true);
    assert_eq!(check_length(&mut con, small_string.len(), yes_max_length), true);
    assert_eq!(check_length(&mut con, big_string.len(), yes_max_length), false);
}

#[test]
fn test_check_empty() {
    let empty_string = "";
    let non_empty_string = "Hello!";
    let mut con = fresh();
    assert_eq!(check_empty(&mut con, empty_string.len(), true), true);
    assert_eq!(check_empty(&mut con, empty_string.len(), false), false);
    assert_eq!(check_empty(&mut con, non_empty_string.len(), false), true);
    assert_eq!(check_empty(&mut con, non_empty_string.len(), true), true);
}

#[test]
fn test_min_max() {
    let no_min: Option<i64> = None;
    let min: Option<i64> = Some(1);
    let no_max: Option<i64> = None;
    let max: Option<i64> = Some(3);
    let mut con = fresh();
    assert_eq!(check_min_max(&mut con, 5, no_min, no_max), true);
    assert_eq!(check_min_max(&mut con, -5, min, no_max), false);
    assert_eq!(check_min_max(&mut con, -5, no_min, max), true);
    assert_eq!(check_min_max(&mut con, 5, no_min, max), false);
    assert_eq!(check_min_max(&mut con, 5, min, max), false);
    assert_eq!(check_min_max(&mut con, 2, min, max), true);
}

#[test]
fn test_check_string_is_choice() {
    let choices = vec!["Earl", "Roger", "Mark"];
    let bob = String::from("Bob");
    let earl_uppercase = String::from("EARL");
    let mark = String::from("Mark");
    let mut con = fresh();
    assert_eq!(check_string_is_a_choice(&mut con, &bob, &choices, false, true), false);
    assert_eq!(check_string_is_a_choice(&mut con, &bob, &choices, true, true), false);
    assert_eq!(
        check_string_is_a_choice(&mut con, &earl_uppercase, &choices, false, true),
        true
    );
    assert_eq!(
        check_string_is_a_choice(&mut con, &earl_uppercase, &choices, true, false),
        false
    );
    assert_eq!(check_string_is_a_choice(&mut con, &mark, &choices, true, false), true);
}

#[test]
fn test_check_num_is_choice() {
    let choices = vec![1, 5, 10, 15];
    let mut con = fresh();
    assert_eq!(check_number_is_a_choice(&mut con, 1, &choices, true), true);
    assert_eq!(check_number_is_a_choice(&mut con, 5, &choices, false), true);
    assert_eq!(check_number_is_a_choice(&mut con, 10, &choices, true), true);
    assert_eq!(check_number_is_a_choice(&mut con, 15, &choices, false), true);
    assert_eq!(check_number_is_a_choice(&mut con, -50, &choices, true), false);
}

#[test]
fn length_diagnostic_reports_overflow_and_length() {
    let mut con = fresh();
    assert_eq!(check_length(&mut con, 20, Some(10)), false);
    assert_eq!(
        con.output,
        vec![
            "Your input is 10 characters higher than the 20 character limit. Please try again."
                .to_string()
        ]
    );
}

#[test]
fn empty_diagnostic_is_fixed() {
    let mut con = fresh();
    assert_eq!(check_empty(&mut con, 0, false), false);
    assert_eq!(con.output, vec!["Your input cannot be empty.".to_string()]);
}

#[test]
fn range_diagnostics_name_the_violated_bound() {
    let mut con = fresh();
    assert_eq!(check_min_max(&mut con, -5, Some(1), Some(3)), false);
    assert_eq!(check_min_max(&mut con, 5, Some(1), Some(3)), false);
    assert_eq!(
        con.output,
        vec![
            "Your input (-5) is lower than the minimum allowed value of 1.".to_string(),
            "Your input (5) is larger than the maximum allowed value of 3.".to_string(),
        ]
    );
}

#[test]
fn number_choice_diagnostics() {
    let choices = vec![1, 5, 10, 15];
    let mut con = fresh();
    assert_eq!(check_number_is_a_choice(&mut con, -50, &choices, true), false);
    assert_eq!(check_number_is_a_choice(&mut con, 7, &choices, false), false);
    assert_eq!(
        con.output,
        vec![
            "Your input (-50) is not an option of the choices: 1, 5, 10, 15, ".to_string(),
            "Your input (7) is not a valid choice.".to_string(),
        ]
    );
}

#[test]
fn string_choice_diagnostics() {
    let choices = vec!["Earl", "Roger", "Mark"];
    let bob = String::from("Bob");
    let mut con = fresh();
    assert_eq!(check_string_is_a_choice(&mut con, &bob, &choices, false, true), false);
    assert_eq!(check_string_is_a_choice(&mut con, &bob, &choices, true, false), false);
    assert_eq!(
        con.output,
        vec![
            "Your input (Bob) is not an option of the choices: Earl, Roger, Mark, ".to_string(),
            "(Case Sensitive: false)".to_string(),
            "Your input (Bob) is not a valid choice. (Case Sensitive: true)".to_string(),
        ]
    );
}
