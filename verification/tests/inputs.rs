use simple_cli::get_number;
use simple_cli::get_string;
use simple_cli::select_number_from_choices;
use simple_cli::select_string_from_choices;
use simple_cli::CliError;
use simple_cli::Console;

fn feed(lines: &[&str]) -> Console {
    Console::new(lines.iter().map(|l| l.to_string()).collect())
}

#[test]
fn get_string_returns_trimmed_input() {
    let mut con = feed(&["  hello  "]);
    let r = get_string(&mut con, Some("Enter your name:"), None, Some(25), false);
    assert_eq!(r, Ok("hello".to_string()));
    assert_eq!(con.output, vec!["Enter your name:".to_string()]);
    assert!(con.input.is_empty());
}

#[test]
fn get_string_retries_on_overlong_then_accepts() {
    let mut con = feed(&["abcuiwehfuewnfiuewnf", "hi"]);
    let r = get_string(&mut con, Some("Name:"), Some("Try once more:"), Some(10), false);
    assert_eq!(r, Ok("hi".to_string()));
    assert_eq!(
        con.output,
        vec![
            "Name:".to_string(),
            "Your input is 10 characters higher than the 20 character limit. Please try again."
                .to_string(),
            "Try once more:".to_string(),
        ]
    );
}

#[test]
fn get_string_rejects_empty_until_allowed() {
    let mut con = feed(&["", "ok"]);
    let r = get_string(&mut con, None, None, None, false);
    assert_eq!(r, Ok("ok".to_string()));
    assert_eq!(con.output, vec!["Your input cannot be empty.".to_string()]);

    let mut con2 = feed(&[""]);
    let r2 = get_string(&mut con2, None, None, None, true);
    assert_eq!(r2, Ok("".to_string()));
    assert!(con2.output.is_empty());
}

#[test]
fn get_string_closed_stream_is_fatal() {
    let mut con = feed(&[]);
    let r = get_string(&mut con, Some("Name:"), None, None, false);
    assert_eq!(r, Err(CliError::InputClosed));
}

#[test]
fn get_number_rejects_then_accepts_in_bounds() {
    let mut con = feed(&["abc", "500", "42"]);
    let r = get_number(&mut con, Some("Pick 1-100:"), Some("Again:"), Some(1), Some(100));
    assert_eq!(r, Ok(42));
    assert_eq!(
        con.output,
        vec![
            "Pick 1-100:".to_string(),
            "Please enter a valid i64 value.".to_string(),
            "Again:".to_string(),
            "Your input (500) is larger than the maximum allowed value of 100.".to_string(),
            "Again:".to_string(),
        ]
    );
}

#[test]
fn get_number_parses_negative_and_trims() {
    let mut con = feed(&["  -50 "]);
    let r = get_number(&mut con, None, None, None, None);
    assert_eq!(r, Ok(-50));
    assert!(con.output.is_empty());
}

#[test]
fn get_number_reports_minimum() {
    let mut con = feed(&["0", "7"]);
    let r = get_number(&mut con, None, None, Some(1), Some(10));
    assert_eq!(r, Ok(7));
    assert_eq!(
        con.output,
        vec!["Your input (0) is lower than the minimum allowed value of 1.".to_string()]
    );
}

#[test]
fn get_number_overflowing_text_is_invalid() {
    let mut con = feed(&["99999999999999999999999999", "3"]);
    let r = get_number(&mut con, None, None, None, None);
    assert_eq!(r, Ok(3));
    assert_eq!(con.output, vec!["Please enter a valid i64 value.".to_string()]);
}

#[test]
fn select_number_empty_choices_fails_without_reading() {
    let mut con = feed(&["1", "2"]);
    let r = select_number_from_choices(&mut con, Some("Pick:"), None, Vec::new(), true);
    assert_eq!(r, Err(CliError::EmptyChoices));
    assert_eq!(con.input.len(), 2);
    assert!(con.output.is_empty());
}

#[test]
fn select_string_empty_choices_fails_without_reading() {
    let mut con = feed(&["Earl"]);
    let r = select_string_from_choices(&mut con, Some("Pick:"), None, Vec::new(), false, true);
    assert_eq!(r, Err(CliError::EmptyChoices));
    assert_eq!(con.input.len(), 1);
    assert!(con.output.is_empty());
}

#[test]
fn select_number_accepts_member_only() {
    let mut con = feed(&["7", "5"]);
    let r = select_number_from_choices(&mut con, Some("Pick:"), Some("Pick:"), vec![1, 5, 10, 15], false);
    assert_eq!(r, Ok(5));
    assert_eq!(
        con.output,
        vec![
            "Pick:".to_string(),
            "Your input (7) is not a valid choice.".to_string(),
            "Pick:".to_string(),
        ]
    );
}

#[test]
fn select_string_ignores_case_when_configured() {
    let mut con = feed(&[" EARL "]);
    let r = select_string_from_choices(
        &mut con,
        Some("Pick:"),
        None,
        vec!["Earl", "Roger", "Mark"],
        false,
        true,
    );
    assert_eq!(r, Ok("EARL".to_string()));
}

#[test]
fn select_string_respects_case_when_sensitive() {
    let mut con = feed(&["EARL", "Earl"]);
    let r = select_string_from_choices(
        &mut con,
        None,
        None,
        vec!["Earl", "Roger", "Mark"],
        true,
        true,
    );
    assert_eq!(r, Ok("Earl".to_string()));
    assert_eq!(
        con.output,
        vec![
            "Your input (EARL) is not an option of the choices: Earl, Roger, Mark, ".to_string(),
            "(Case Sensitive: true)".to_string(),
        ]
    );
}

#[test]
fn select_string_closed_stream_is_fatal() {
    let mut con = feed(&["Bob"]);
    let r = select_string_from_choices(
        &mut con,
        None,
        None,
        vec!["Earl", "Roger", "Mark"],
        true,
        false,
    );
    assert_eq!(r, Err(CliError::InputClosed));
    assert!(con.input.is_empty());
}
