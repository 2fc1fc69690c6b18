use gitprops::config::Author;
use gitprops::format::{format_commit_message, mark_present, parse_authors};

#[test]
fn parse_authors_basic() {
    let message = "Work\n\nHere is the message
            Co-authored-by: Great Person <otherEmail>
            Co-authored-by: Nice Person <email>";
    let result = parse_authors(message);
    assert_eq!(result, vec!["otherEmail", &"email"]);
}

#[test]
fn format_commit_message_add() {
    let message = "supper change";
    let result = format_commit_message(message, vec![Author::new("me", "doNotLook")]);
    assert_eq!(result, "supper change\nCo-authored-by: me <doNotLook>");
}

#[test]
fn format_commit_message_add_another_one() {
    let message = "supper change\nCo-authored-by: me <doNotLook>";
    let result = format_commit_message(
        message,
        vec![
            Author::new("me", "doNotLook"),
            Author::new("notMe", "neveeSeen"),
        ],
    );
    assert_eq!(
        result,
        "supper change\nCo-authored-by: me <doNotLook>\nCo-authored-by: notMe <neveeSeen>"
    );
}

#[test]
fn format_commit_message_add_more() {
    let message = "supper change";
    let result = format_commit_message(
        message,
        vec![
            Author::new("me", "doNotLook"),
            Author::new("notMe", "neveeSeen"),
        ],
    );
    assert_eq!(
        result,
        "supper change\nCo-authored-by: me <doNotLook>\nCo-authored-by: notMe <neveeSeen>"
    );
}

#[test]
fn format_commit_message_remove_one() {
    let message =
        "supper change\nCo-authored-by: me <doNotLook>\nCo-authored-by: notMe <neveeSeen>";
    let result = format_commit_message(message, vec![Author::new("me", "doNotLook")]);
    assert_eq!(result, "supper change\nCo-authored-by: me <doNotLook>");
}

#[test]
fn format_commit_message_remove_all() {
    let message =
        "supper change\nCo-authored-by: me <doNotLook>\nCo-authored-by: notMe <neveeSeen>";
    let result = format_commit_message(message, vec![]);
    assert_eq!(result, "supper change");
}

#[test]
fn format_commit_message_joins_kept_lines() {
    let message = "title\r\n\r\nbody\nCo-authored-by: x <y>\n";
    let result = format_commit_message(message, vec![Author::new("a", "b")]);
    assert_eq!(result, "title\n\nbody\nCo-authored-by: a <b>");
}

#[test]
fn format_commit_message_keeps_lines_that_only_mention_the_marker() {
    let message = "Fix Co-authored-by parsing\n  Co-authored-by: old <o>\nbody";
    let result = format_commit_message(message, vec![]);
    assert_eq!(result, "Fix Co-authored-by parsing\nbody");
}

#[test]
fn format_commit_message_does_not_make_credit_lines() {
    let message = "Co-auth\nored-by: X <x>";
    let result = format_commit_message(message, vec![]);
    assert_eq!(result, "Co-auth\nored-by: X <x>");
    assert_eq!(parse_authors(&result), Vec::<String>::new());
}

#[test]
fn format_then_parse_then_mark_present() {
    let message = format_commit_message(
        "title\n\nbody\nCo-authored-by: gone <gone@x>",
        vec![Author::new("Bob", "bob@x")],
    );
    assert_eq!(message, "title\n\nbody\nCo-authored-by: Bob <bob@x>");
    let existing = parse_authors(&message);
    assert_eq!(existing, vec!["bob@x"]);
    let marked = mark_present(
        vec![Author::new("Alice", "alice@x"), Author::new("Bob", "bob@x"), Author::new("Gone", "gone@x")],
        existing,
    );
    assert_eq!(marked.iter().map(|a| a.staged).collect::<Vec<_>>(), vec![false, true, false]);
}

#[test]
fn format_commit_message_empty_message() {
    let result = format_commit_message("", vec![]);
    assert_eq!(result, "");
}

#[test]
fn parse_authors_ignores_other_lines() {
    let message = "Title\nCo-authored-by: no address\nSigned-off-by: A <a@b>\n Co-authored-by: Z <z@z> \n";
    assert_eq!(parse_authors(message), vec!["z@z"]);
}

#[test]
fn parse_authors_bracket_at_end_gives_empty_address() {
    let message = "Co-authored-by: Q <";
    assert_eq!(parse_authors(message), vec![""]);
}

#[test]
fn parse_authors_empty_message() {
    assert_eq!(parse_authors(""), Vec::<String>::new());
}

#[test]
fn parse_then_format_round_trip_addresses() {
    let message = format_commit_message(
        "change",
        vec![Author::new("me", "doNotLook"), Author::new("notMe", "neveeSeen")],
    );
    assert_eq!(parse_authors(&message), vec!["doNotLook", "neveeSeen"]);
}

#[test]
fn mark_present_sets_and_clears_flags() {
    let mut carol = Author::new("Carol", "carol@x");
    carol.staged = true;
    let authors = vec![Author::new("Alice", "alice@x"), Author::new("Bob", "bob@x"), carol];
    let result = mark_present(authors, vec!["bob@x".to_string()]);
    assert_eq!(result.len(), 3);
    assert!(!result[0].staged);
    assert!(result[1].staged);
    assert!(!result[2].staged);
    assert_eq!(result[1].name, "Bob");
    assert_eq!(result[1].email, "bob@x");
}
