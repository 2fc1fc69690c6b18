use gitprops::config::{Author, Storage, StorageAuthor};
use gitprops::finder::{filter_items, render_canvas, render_items, Finder, Key, Outcome, StageAble};

fn ch(c: char) -> Key {
    Key::Char { code: c, control: false }
}

fn people() -> Vec<Author> {
    vec![Author::new("Bob", "bob@x"), Author::new("John", "john@x"), Author::new("Alice", "alice@x")]
}

fn names(v: &[Author]) -> Vec<String> {
    v.iter().map(|a| a.name.clone()).collect()
}

#[test]
fn scenario_type_o_move_down_stage_confirm() {
    let mut f = Finder::new(people());
    f.handle(ch('o'));
    assert_eq!(f.filtered_view(), &vec![0, 1]);
    assert_eq!(f.hover(), 0);
    f.handle(Key::Down);
    assert_eq!(f.hover(), 1);
    f.handle(ch(' '));
    assert!(f.entries()[1].staged);
    assert!(!f.entries()[0].staged);
    f.handle(Key::Enter);
    assert_eq!(f.outcome(), Outcome::Confirmed);
    let out = f.into_result().unwrap();
    assert_eq!(names(&out), vec!["John"]);
}

#[test]
fn scenario_enter_immediately_confirms_empty() {
    let mut f = Finder::new(people());
    f.handle(Key::Enter);
    assert_eq!(f.into_result(), Some(vec![]));
}

#[test]
fn scenario_esc_immediately_cancels() {
    let mut f = Finder::new(people());
    f.handle(Key::Esc);
    assert_eq!(f.outcome(), Outcome::Cancelled);
    assert_eq!(f.into_result(), None);
}

#[test]
fn scenario_prestaged_item_is_confirmed() {
    let mut input = people();
    input[2].staged = true;
    let mut f = Finder::new(input);
    f.handle(Key::Enter);
    let out = f.into_result().unwrap();
    assert_eq!(names(&out), vec!["Alice"]);
}

#[test]
fn scenario_reset_clears_hidden_flag() {
    let mut f = Finder::new(people());
    f.handle(ch(' '));
    assert!(f.entries()[0].staged);
    for c in "xyz".chars() {
        f.handle(ch(c));
    }
    assert!(f.filtered_view().is_empty());
    assert_eq!(f.hover(), 0);
    f.handle(Key::Char { code: 'r', control: true });
    for _ in 0..3 {
        f.handle(Key::Backspace);
    }
    assert_eq!(f.filtered_view(), &vec![0, 1, 2]);
    f.handle(Key::Enter);
    assert_eq!(f.into_result(), Some(vec![]));
}

#[test]
fn filter_keeps_order_and_matches_case_insensitively() {
    let items: Vec<StageAble<Author>> = people().into_iter().map(StageAble::new).collect();
    assert_eq!(filter_items(&items, "O"), vec![0, 1]);
    assert_eq!(filter_items(&items, "LI"), vec![2]);
    assert_eq!(filter_items(&items, ""), vec![0, 1, 2]);
    assert_eq!(filter_items(&items, "zz"), Vec::<usize>::new());
    // the search is on the name, not the address
    assert_eq!(filter_items(&items, "@x"), Vec::<usize>::new());
}

#[test]
fn filter_on_empty_list() {
    let items: Vec<StageAble<Author>> = vec![];
    assert_eq!(filter_items(&items, "a"), Vec::<usize>::new());
}

#[test]
fn toggle_twice_restores_flag() {
    let mut f = Finder::new(people());
    f.handle(Key::Down);
    f.handle(ch(' '));
    assert!(f.entries()[1].staged);
    f.handle(ch(' '));
    assert!(!f.entries()[1].staged);
}

#[test]
fn toggle_affects_all_equal_items() {
    let mut f = Finder::new(vec![Author::new("Bob", "b"), Author::new("Bob", "b"), Author::new("Al", "a")]);
    f.handle(ch(' '));
    assert!(f.entries()[0].staged);
    assert!(f.entries()[1].staged);
    assert!(!f.entries()[2].staged);
}

#[test]
fn hover_stays_in_bounds_while_typing() {
    let mut f = Finder::new(people());
    f.handle(Key::Down);
    f.handle(Key::Down);
    f.handle(Key::Down);
    assert_eq!(f.hover(), 2);
    f.handle(ch('o'));
    assert_eq!(f.hover(), 1);
    f.handle(ch('h'));
    assert_eq!(f.filtered_view(), &vec![1]);
    assert_eq!(f.hover(), 0);
    f.handle(ch('q'));
    assert_eq!(f.hover(), 0);
    f.handle(Key::Backspace);
    f.handle(Key::Backspace);
    assert_eq!(f.query(), "o");
    assert_eq!(f.hover(), 0);
    f.handle(Key::Up);
    assert_eq!(f.hover(), 0);
}

#[test]
fn empty_list_keys_do_nothing_harmful() {
    let mut f: Finder<Author> = Finder::new(vec![]);
    f.handle(Key::Down);
    f.handle(ch(' '));
    f.handle(Key::Up);
    f.handle(Key::Backspace);
    assert_eq!(f.hover(), 0);
    f.handle(Key::Enter);
    assert_eq!(f.into_result(), Some(vec![]));
}

#[test]
fn confirm_ignores_the_query() {
    let mut f = Finder::new(people());
    f.handle(Key::Down);
    f.handle(Key::Down);
    f.handle(ch(' '));
    f.handle(ch('b'));
    f.handle(Key::Enter);
    assert_eq!(names(&f.into_result().unwrap()), vec!["Alice"]);
}

#[test]
fn keys_after_decision_are_ignored() {
    let mut f = Finder::new(people());
    f.handle(Key::Esc);
    f.handle(Key::Enter);
    f.handle(ch('a'));
    assert_eq!(f.outcome(), Outcome::Cancelled);
    assert_eq!(f.query(), "");
}

#[test]
fn control_other_char_extends_query_and_other_key_ignored() {
    let mut f = Finder::new(people());
    f.handle(Key::Char { code: 'a', control: true });
    assert_eq!(f.query(), "a");
    f.handle(Key::Other);
    assert_eq!(f.query(), "a");
    assert_eq!(f.outcome(), Outcome::Undecided);
}

#[test]
fn render_shows_search_rows_and_help() {
    let mut f = Finder::new(people());
    f.handle(ch('o'));
    f.handle(Key::Down);
    f.handle(ch(' '));
    let lines = f.render();
    assert_eq!(lines.len(), 4);
    assert_eq!(lines[0], "Search: o");
    assert_eq!(lines[1], "[ ] Bob bob@x");
    assert!(lines[2] != "[X] John john@x");
    assert!(lines[2].contains("[X] John john@x"));
    assert!(lines[3].starts_with("Usage: <Esc>: Close"));
}

#[test]
fn render_items_emphasizes_only_hover() {
    let items: Vec<StageAble<Author>> = people().into_iter().map(StageAble::new).collect();
    let rows = render_items(&items, &vec![2, 0], 1);
    assert_eq!(rows.len(), 2);
    assert_eq!(rows[0], "[ ] Alice alice@x");
    assert!(rows[1].contains("[ ] Bob bob@x"));
    assert!(rows[1].starts_with("\x1b["));
    let canvas = render_canvas("q", 5, &items, &vec![]);
    assert_eq!(canvas.len(), 2);
    assert_eq!(canvas[0], "Search: q");
}

#[test]
fn stageable_row_text() {
    let mut s = StageAble::new(Author::new("A", "e"));
    assert_eq!(s.to_string(), "[ ] A e");
    s.staged = true;
    assert_eq!(s.to_string(), "[X] A e");
}

#[test]
fn storage_default_and_conversion() {
    let s = Storage::default();
    assert_eq!(s.authors.len(), 1);
    assert_eq!(s.authors[0], StorageAuthor { name: "Nice Person".to_string(), email: "nice@email".to_string() });
    let a: Author = s.authors[0].clone().into();
    assert_eq!(a, Author::new("Nice Person", "nice@email"));
    assert_eq!(a.to_string(), "Nice Person nice@email");
}
