use rust_shell::line_editor::{EditAction, EditKey, LineEditor};
use rust_shell::string_index::StringIndex;

fn strings(v: &[&str]) -> Vec<String> {
    v.iter().map(|s| s.to_string()).collect()
}

#[test]
fn typing_moving_and_deleting() {
    let mut l = StringIndex::from("abc");
    assert_eq!(l.get_index(), 3);
    l.insert('d');
    assert_eq!(l.get(), "abcd");
    l.move_left();
    l.move_left();
    assert_eq!(l.get_index(), 2);
    l.insert('X');
    assert_eq!(l.get(), "abXcd");
    assert_eq!(l.get_index(), 3);
    l.remove();
    assert_eq!(l.get(), "abcd");
    assert_eq!(l.get_index(), 2);
    l.insert_str("12");
    assert_eq!(l.get(), "ab12cd");
    assert_eq!(l.get_index(), 4);
    l.push_str("!");
    assert_eq!(l.get(), "ab12cd!");
    assert_eq!(l.get_index(), 4);
}

#[test]
fn the_cursor_stays_inside_the_line() {
    let mut l = StringIndex::new();
    assert!(l.is_empty());
    l.move_left();
    l.remove();
    assert_eq!(l.get_index(), 0);
    l.insert('a');
    l.move_right();
    assert_eq!(l.get_index(), 1);
    assert!(!l.is_empty());
}

#[test]
fn insert_then_backspace_gives_the_line_back() {
    let mut l = StringIndex::from("hello");
    l.move_left();
    l.move_left();
    l.insert('Z');
    l.remove();
    assert_eq!(l.get(), "hello");
    assert_eq!(l.get_index(), 3);
}

#[test]
fn right_then_left_gives_the_cursor_back() {
    let mut l = StringIndex::from("hello");
    l.move_left();
    l.move_left();
    l.move_right();
    l.move_left();
    assert_eq!(l.get_index(), 3);
}

#[test]
fn set_puts_the_cursor_at_the_end() {
    let mut l = StringIndex::from("x");
    l.set("hello".to_string());
    assert_eq!(l.get(), "hello");
    assert_eq!(l.get_index(), 5);
}

#[test]
fn the_word_to_complete() {
    let l = StringIndex::from("ls src/ma");
    assert_eq!(l.predict_target(), Some((3, false, "src/ma".to_string())));
    let l = StringIndex::from("gr");
    assert_eq!(l.predict_target(), Some((0, true, "gr".to_string())));
    let l = StringIndex::from("ls; gr");
    assert_eq!(l.predict_target(), Some((3, true, " gr".to_string())));
}

#[test]
fn a_single_candidate_completes_the_word() {
    let mut l = StringIndex::from("ls src/ma");
    l.predict(3, &strings(&["src/main.rs"]));
    assert_eq!(l.get(), "ls src/main.rs");
    assert_eq!(l.get_index(), 14);
    let mut l = StringIndex::from("ls src/ma");
    l.predict(3, &strings(&["src/main.rs", "src/macros/"]));
    assert_eq!(l.get(), "ls src/ma");
    l.predict(3, &Vec::new());
    assert_eq!(l.get(), "ls src/ma");
}

#[test]
fn the_cursor_counts_bytes() {
    let mut l = StringIndex::from("héllo");
    assert_eq!(l.get_index(), 6);
    l.move_left();
    assert!(l.can_insert());
    l.insert('ö');
    assert_eq!(l.get(), "héllöo");
    assert_eq!(l.get_index(), 6);
    // the cursor is now inside `ö`: nothing can be typed there
    assert!(!l.can_insert());
    assert!(l.can_remove());
    l.remove();
    assert_eq!(l.get(), "héllo");
    assert_eq!(l.get_index(), 5);
    l.remove();
    assert_eq!(l.get(), "hélo");
    assert_eq!(l.get_index(), 4);
    l.move_left();
    assert_eq!(l.get_index(), 3);
    // the byte before the cursor is inside `é`
    assert!(!l.can_remove());
    l.set("日本".to_string());
    assert_eq!(l.get(), "日本");
    assert_eq!(l.get_index(), 6);
    assert!(l.can_insert_str("語"));
    assert!(!l.can_insert_str("語x"));
    l.insert_str("語");
    assert_eq!(l.get(), "日本語");
    assert_eq!(l.get_index(), 7);
    l.push_str("!");
    assert_eq!(l.get(), "日本語!");
    assert_eq!(l.get_index(), 7);
}

#[test]
fn completing_around_wide_characters() {
    let l = StringIndex::from("cat fé");
    assert_eq!(l.predict_target(), Some((4, false, "fé".to_string())));
    // removing `é` byte by byte is not possible
    assert!(!l.can_complete(4, "féé.txt"));
    let mut l = StringIndex::from("cat fo");
    assert!(!l.can_complete(4, "föo.txt"));
    assert!(l.can_complete(4, "foé"));
    l.predict(4, &strings(&["foé"]));
    assert_eq!(l.get(), "cat foé");
    assert_eq!(l.get_index(), 7);
    let mut l = StringIndex::from("é");
    l.move_left();
    assert_eq!(l.predict_target(), None);
}

#[test]
fn browsing_a_history_entry_with_any_text() {
    let mut e = LineEditor::new(strings(&["é"]));
    e.handle_key(EditKey::Up);
    assert_eq!(e.line().get_index(), 2);
    assert_eq!(e.handle_key(EditKey::Enter), EditAction::Submit);
    assert_eq!(e.line().get(), "é\n");
    let mut e = LineEditor::new(Vec::new());
    assert!(e.can_handle_key(EditKey::Char('é')));
    e.handle_key(EditKey::Char('é'));
    // the cursor moved one byte, into `é`
    assert!(!e.can_handle_key(EditKey::Char('x')));
    assert!(!e.can_handle_key(EditKey::CtrlC));
    assert!(e.can_handle_key(EditKey::Backspace));
    e.handle_key(EditKey::Enter);
    assert_eq!(e.line().get(), "é\n");
}

#[test]
fn browsing_the_history() {
    let mut e = LineEditor::new(strings(&["pwd", "ls"]));
    assert_eq!(e.handle_key(EditKey::Char('a')), EditAction::Redraw);
    assert_eq!(e.line().get(), "a");
    assert_eq!(e.handle_key(EditKey::Up), EditAction::Redraw);
    assert_eq!(e.line().get(), "pwd");
    assert_eq!(e.handle_key(EditKey::Up), EditAction::Redraw);
    assert_eq!(e.line().get(), "ls");
    assert_eq!(e.handle_key(EditKey::Up), EditAction::Redraw);
    assert_eq!(e.line().get(), "ls");
    assert_eq!(e.handle_key(EditKey::Down), EditAction::Redraw);
    assert_eq!(e.line().get(), "pwd");
    assert_eq!(e.handle_key(EditKey::Down), EditAction::Redraw);
    assert_eq!(e.line().get(), "a");
    assert_eq!(e.handle_key(EditKey::Down), EditAction::Nothing);
    assert_eq!(e.line().get(), "a");
}

#[test]
fn characters_typed_while_browsing_are_not_kept() {
    let mut e = LineEditor::new(strings(&["pwd"]));
    e.handle_key(EditKey::Char('a'));
    e.handle_key(EditKey::Up);
    e.handle_key(EditKey::Char('x'));
    assert_eq!(e.line().get(), "pwdx");
    e.handle_key(EditKey::Down);
    assert_eq!(e.line().get(), "a");
}

#[test]
fn ending_a_line() {
    let mut e = LineEditor::new(Vec::new());
    assert_eq!(e.handle_key(EditKey::CtrlD), EditAction::Exit);
    e.handle_key(EditKey::Char('l'));
    e.handle_key(EditKey::Char('s'));
    assert_eq!(e.handle_key(EditKey::CtrlD), EditAction::Nothing);
    assert_eq!(e.handle_key(EditKey::Tab), EditAction::Complete);
    assert_eq!(e.handle_key(EditKey::Other), EditAction::Nothing);
    assert_eq!(e.handle_key(EditKey::Enter), EditAction::Submit);
    assert_eq!(e.line().get(), "ls\n");
}

#[test]
fn interrupting_a_line() {
    let mut e = LineEditor::new(Vec::new());
    e.handle_key(EditKey::Char('a'));
    e.handle_key(EditKey::Char('b'));
    e.handle_key(EditKey::Left);
    assert_eq!(e.handle_key(EditKey::CtrlC), EditAction::Interrupt);
    assert_eq!(e.line().get(), "a^Cb");
}

#[test]
fn editing_keys() {
    let mut e = LineEditor::new(Vec::new());
    e.handle_key(EditKey::Char('a'));
    e.handle_key(EditKey::Char('c'));
    e.handle_key(EditKey::Left);
    e.handle_key(EditKey::Char('b'));
    assert_eq!(e.line().get(), "abc");
    e.handle_key(EditKey::Right);
    assert_eq!(e.handle_key(EditKey::Backspace), EditAction::Redraw);
    assert_eq!(e.line().get(), "ab");
    assert_eq!(e.line().get_index(), 2);
    assert_eq!(e.handle_key(EditKey::Char('é')), EditAction::Redraw);
    assert_eq!(e.line().get(), "abé");
}

#[test]
fn completing_in_the_editor() {
    let mut e = LineEditor::new(Vec::new());
    for c in "cat ma".chars() {
        e.handle_key(EditKey::Char(c));
    }
    let (start, is_command, word) = e.line().predict_target().unwrap();
    assert_eq!((start, is_command, word.as_str()), (4, false, "ma"));
    e.complete(start, &strings(&["./main.rs"]));
    assert_eq!(e.line().get(), "cat ./main.rs");
}
