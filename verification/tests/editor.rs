use tedit::editor::TextEditor;

fn doc(s: &str) -> Vec<char> {
    s.chars().collect()
}

fn ed(s: &str, cursor: usize) -> TextEditor {
    TextEditor { text: doc(s), cursor }
}

#[test]
fn new_starts_at_offset_zero() {
    let e = TextEditor::new(doc("ab\ncd"));
    assert_eq!(e.text, doc("ab\ncd"));
    assert_eq!(e.cursor, 0);
}

#[test]
fn empty_document_motions_are_noops() {
    let mut e = TextEditor::new(doc(""));
    e.move_up();
    assert_eq!(e.text, doc(""));
    assert_eq!(e.cursor, 0);
    e.move_down();
    assert_eq!(e.text, doc(""));
    assert_eq!(e.cursor, 0);
    e.move_left();
    assert_eq!(e.text, doc(""));
    assert_eq!(e.cursor, 0);
    e.move_right();
    assert_eq!(e.text, doc(""));
    assert_eq!(e.cursor, 0);
}

#[test]
fn insert_at_start() {
    let mut e = TextEditor::new(doc("hello"));
    e.insert('X');
    assert_eq!(e.text, doc("Xhello"));
    assert_eq!(e.cursor, 1);
}

#[test]
fn insert_grows_by_one_at_the_cursor() {
    let mut e = ed("ab\ncd", 2);
    e.insert('z');
    assert_eq!(e.text.len(), 6);
    assert_eq!(e.text[2], 'z');
    assert_eq!(e.text, doc("abz\ncd"));
    assert_eq!(e.cursor, 3);
}

#[test]
fn insert_at_end_appends() {
    let mut e = ed("ab", 2);
    e.insert('c');
    assert_eq!(e.text, doc("abc"));
    assert_eq!(e.cursor, 3);
}

#[test]
fn delete_at_start_is_noop() {
    let mut e = TextEditor::new(doc("abc"));
    e.delete();
    assert_eq!(e.text, doc("abc"));
    assert_eq!(e.cursor, 0);
}

#[test]
fn delete_at_end() {
    let mut e = ed("ab\ncd", 5);
    e.delete();
    assert_eq!(e.text, doc("ab\nc"));
    assert_eq!(e.cursor, 4);
}

#[test]
fn delete_removes_the_character_before_the_cursor() {
    let mut e = ed("abc", 2);
    e.delete();
    assert_eq!(e.text, doc("ac"));
    assert_eq!(e.cursor, 1);
}

#[test]
fn coordinates_mid_document() {
    let e = ed("ab\ncd", 4);
    assert_eq!(e.get_current_y(), 1);
    assert_eq!(e.get_current_x(), 1);
    assert_eq!(e.get_line_number(), 2);
}

#[test]
fn coordinates_at_boundaries() {
    let e = ed("ab\ncd", 0);
    assert_eq!(e.get_current_y(), 0);
    assert_eq!(e.get_current_x(), 0);
    assert_eq!(e.get_line_number(), 1);

    // On the newline itself: still line 0, column 2.
    let e = ed("ab\ncd", 2);
    assert_eq!(e.get_current_y(), 0);
    assert_eq!(e.get_current_x(), 2);

    // Just past the newline: start of line 1.
    let e = ed("ab\ncd", 3);
    assert_eq!(e.get_current_y(), 1);
    assert_eq!(e.get_current_x(), 0);

    // At the very end.
    let e = ed("ab\ncd", 5);
    assert_eq!(e.get_current_y(), 1);
    assert_eq!(e.get_current_x(), 2);
}

#[test]
fn left_then_right_restores_the_cursor() {
    let mut e = ed("hello", 3);
    e.move_left();
    assert_eq!(e.cursor, 2);
    e.move_right();
    assert_eq!(e.cursor, 3);

    let mut e = ed("hello", 0);
    e.move_left();
    assert_eq!(e.cursor, 0);
}

#[test]
fn right_then_left_restores_the_cursor() {
    let mut e = ed("hello", 3);
    e.move_right();
    assert_eq!(e.cursor, 4);
    e.move_left();
    assert_eq!(e.cursor, 3);

    let mut e = ed("hello", 5);
    e.move_right();
    assert_eq!(e.cursor, 5);
}

#[test]
fn rendered_text_carries_one_marker() {
    let e = ed("ab\ncd", 2);
    let shown = e.get_text();
    assert_eq!(shown, doc("ab|\ncd"));
    assert_eq!(shown.iter().filter(|&&c| c == '|').count(), 1);
    let mut without = shown.clone();
    without.remove(2);
    assert_eq!(without, doc("ab\ncd"));
}

#[test]
fn rendered_empty_document_is_just_the_marker() {
    let e = TextEditor::new(doc(""));
    assert_eq!(e.get_text(), doc("|"));
}

#[test]
fn lines_split_at_newlines() {
    let e = ed("ab\ncd", 0);
    assert_eq!(e.get_lines(), vec![doc("ab"), doc("cd")]);
    assert_eq!(e.line_count(), 2);
    assert_eq!(e.get_line_len(0), 2);
    assert_eq!(e.get_line_len(1), 2);
}

#[test]
fn trailing_newline_opens_an_empty_line() {
    let e = ed("a\n", 0);
    assert_eq!(e.get_lines(), vec![doc("a"), doc("")]);
    assert_eq!(e.line_count(), 2);
    assert_eq!(e.get_line_len(1), 0);
}

#[test]
fn empty_document_has_one_empty_line() {
    let e = TextEditor::new(doc(""));
    assert_eq!(e.get_lines(), vec![doc("")]);
    assert_eq!(e.line_count(), 1);
    assert_eq!(e.get_line_len(0), 0);
}

#[test]
fn current_line_len_reads_the_line_indexed_by_the_cursor() {
    let e = ed("ab\ncde", 1);
    assert_eq!(e.current_line_len(), 3);
}

#[test]
fn move_up_steps_over_the_previous_line() {
    let mut e = ed("ab\ncd", 4);
    e.move_up();
    assert_eq!(e.cursor, 1);
    assert_eq!(e.text, doc("ab\ncd"));
}

#[test]
fn move_up_on_first_line_is_noop() {
    let mut e = ed("ab\ncd", 1);
    e.move_up();
    assert_eq!(e.cursor, 1);
}

#[test]
fn move_down_steps_over_the_current_line() {
    let mut e = ed("ab\ncd", 1);
    e.move_down();
    assert_eq!(e.cursor, 4);
    assert_eq!(e.text, doc("ab\ncd"));
}

#[test]
fn move_down_on_last_line_is_noop() {
    let mut e = ed("ab\ncd", 4);
    e.move_down();
    assert_eq!(e.cursor, 4);
}

#[test]
fn move_down_that_would_leave_the_document_is_noop() {
    // From the newline of "ab", the step would land at offset 5 in a
    // four-character document.
    let mut e = ed("ab\nc", 2);
    e.move_down();
    assert_eq!(e.cursor, 2);
}

#[test]
fn vertical_moves_keep_the_raw_column() {
    // Moving up from column 3 of the second line lands past the end of the
    // one-character first line: the column is not clamped.
    let mut e = ed("x\nabcd", 5);
    e.move_up();
    assert_eq!(e.cursor, 3);

    // Moving down from the newline of the first line steps over that line's
    // length plus one, landing on the second line by raw offset.
    let mut e = ed("abcd\nxy\nzw", 4);
    e.move_down();
    assert_eq!(e.cursor, 9);
}

#[test]
fn insert_then_delete_round_trips() {
    let mut e = ed("ab\ncd", 3);
    e.insert('q');
    assert_eq!(e.text, doc("ab\nqcd"));
    assert_eq!(e.cursor, 4);
    e.delete();
    assert_eq!(e.text, doc("ab\ncd"));
    assert_eq!(e.cursor, 3);
}
