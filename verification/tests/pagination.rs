use simple_cli::clear_terminal;
use simple_cli::page_count;
use simple_cli::paginated_list;
use simple_cli::print_list;
use simple_cli::CliError;
use simple_cli::Console;

fn feed(lines: &[&str]) -> Console {
    Console::new(lines.iter().map(|l| l.to_string()).collect())
}

fn items(n: usize) -> Vec<String> {
    (1..=n).map(|i| format!("item {}", i)).collect()
}

fn page_indicators(con: &Console) -> Vec<String> {
    con.output
        .iter()
        .filter(|l| l.starts_with("(Page "))
        .cloned()
        .collect()
}

const NAV_PROMPT: &str =
    "Press N to view the next page, P for previous, S for a specific page, or E to Exit.";

#[test]
fn page_count_rounds_up_and_floors_at_one() {
    assert_eq!(page_count(14, 3), 5);
    assert_eq!(page_count(0, 3), 1);
    assert_eq!(page_count(15, 3), 5);
    assert_eq!(page_count(16, 3), 6);
    assert_eq!(page_count(1, 1), 1);
    assert_eq!(page_count(2, 1), 2);
}

#[test]
fn print_list_prints_header_then_items() {
    let mut con = feed(&[]);
    let list = vec!["Moe".to_string(), "Larry".to_string(), "Curly".to_string()];
    print_list(&mut con, Some("My list:"), &list);
    assert_eq!(
        con.output,
        vec![
            "My list:".to_string(),
            "Moe".to_string(),
            "Larry".to_string(),
            "Curly".to_string(),
        ]
    );
}

#[test]
fn clear_terminal_emits_escape_sequence() {
    let mut con = feed(&[]);
    clear_terminal(&mut con);
    assert_eq!(con.output, vec!["\u{1b}c".to_string()]);
}

#[test]
fn next_clamps_at_last_page() {
    let mut con = feed(&["N", "N", "N", "N", "N", "E"]);
    let r = paginated_list(&mut con, Some("List:"), &items(14), 3, false);
    assert_eq!(r, Ok(()));
    assert_eq!(
        page_indicators(&con),
        vec![
            "(Page 1 of 5)".to_string(),
            "(Page 2 of 5)".to_string(),
            "(Page 3 of 5)".to_string(),
            "(Page 4 of 5)".to_string(),
            "(Page 5 of 5)".to_string(),
            "(Page 5 of 5)".to_string(),
        ]
    );
}

#[test]
fn previous_clamps_at_first_page() {
    let mut con = feed(&["P", "E"]);
    let r = paginated_list(&mut con, None, &items(14), 3, false);
    assert_eq!(r, Ok(()));
    assert_eq!(
        page_indicators(&con),
        vec!["(Page 1 of 5)".to_string(), "(Page 1 of 5)".to_string()]
    );
}

#[test]
fn first_page_renders_its_slice() {
    let mut con = feed(&["E"]);
    let r = paginated_list(&mut con, Some("List:"), &items(14), 3, false);
    assert_eq!(r, Ok(()));
    assert_eq!(
        con.output[0..5].to_vec(),
        vec![
            "List:".to_string(),
            "item 1".to_string(),
            "item 2".to_string(),
            "item 3".to_string(),
            "(Page 1 of 5)".to_string(),
        ]
    );
    assert_eq!(con.output[5], NAV_PROMPT.to_string());
}

#[test]
fn last_page_renders_the_remainder() {
    let mut con = feed(&["S", "5", "E"]);
    let r = paginated_list(&mut con, None, &items(14), 3, false);
    assert_eq!(r, Ok(()));
    assert_eq!(
        page_indicators(&con),
        vec!["(Page 1 of 5)".to_string(), "(Page 5 of 5)".to_string()]
    );
    assert!(con.output.contains(&"Enter the page you would like to view.".to_string()));
    assert!(con.output.contains(&"item 13".to_string()));
    assert!(con.output.contains(&"item 14".to_string()));
}

#[test]
fn empty_list_still_has_one_page() {
    let mut con = feed(&["E"]);
    let r = paginated_list(&mut con, None, &items(0), 3, false);
    assert_eq!(r, Ok(()));
    assert_eq!(page_indicators(&con), vec!["(Page 1 of 1)".to_string()]);
}

#[test]
fn lowercase_commands_are_accepted() {
    let mut con = feed(&["n", "e"]);
    let r = paginated_list(&mut con, None, &items(14), 3, false);
    assert_eq!(r, Ok(()));
    assert_eq!(
        page_indicators(&con),
        vec!["(Page 1 of 5)".to_string(), "(Page 2 of 5)".to_string()]
    );
}

#[test]
fn invalid_command_reshows_the_choices() {
    let mut con = feed(&["x", "N", "E"]);
    let r = paginated_list(&mut con, None, &items(14), 3, false);
    assert_eq!(r, Ok(()));
    assert!(con
        .output
        .contains(&"Your input (x) is not an option of the choices: N, P, S, E, ".to_string()));
    assert!(con.output.contains(&"(Case Sensitive: false)".to_string()));
    assert_eq!(
        page_indicators(&con),
        vec!["(Page 1 of 5)".to_string(), "(Page 2 of 5)".to_string()]
    );
}

#[test]
fn non_positive_page_size_is_fatal() {
    let mut con = feed(&["E"]);
    let r = paginated_list(&mut con, None, &items(14), 0, false);
    assert_eq!(r, Err(CliError::InvalidItemsPerPage));
    assert_eq!(con.input.len(), 1);
    assert!(con.output.is_empty());

    let r2 = paginated_list(&mut con, None, &items(14), -2, false);
    assert_eq!(r2, Err(CliError::InvalidItemsPerPage));
}

#[test]
fn closed_stream_mid_navigation_is_fatal() {
    let mut con = feed(&["N"]);
    let r = paginated_list(&mut con, None, &items(14), 3, false);
    assert_eq!(r, Err(CliError::InputClosed));
}

#[test]
fn clear_on_update_clears_each_iteration() {
    let mut con = feed(&["N", "E"]);
    let r = paginated_list(&mut con, None, &items(4), 2, true);
    assert_eq!(r, Ok(()));
    assert_eq!(con.output.iter().filter(|l| *l == "\u{1b}c").count(), 2);
    assert_eq!(con.output.last(), Some(&"\u{1b}c".to_string()));
}
