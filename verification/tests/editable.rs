use mailc::editable::{TextArea, TextInput};

// -- TextInput ------------------------------------------------------------

#[test]
fn with_value_places_the_cursor_at_the_end() {
    let input = TextInput::with_value("hello");
    assert_eq!(input.value, "hello");
    assert_eq!(input.cursor, 5);
}

#[test]
fn insert_and_backspace_operate_at_the_cursor() {
    let mut input = TextInput::default();
    input.insert('a');
    input.insert('c');
    input.left();
    input.insert('b');
    assert_eq!(input.value, "abc");
    assert_eq!(input.cursor, 2);

    input.backspace();
    assert_eq!(input.value, "ac");
    assert_eq!(input.cursor, 1);
}

#[test]
fn backspace_at_the_start_is_a_no_op() {
    let mut input = TextInput::with_value("x");
    input.left();
    assert_eq!(input.cursor, 0);
    input.backspace();
    assert_eq!(input.value, "x");
    assert_eq!(input.cursor, 0);
}

#[test]
fn left_and_right_clamp_to_the_value_bounds() {
    let mut input = TextInput::with_value("ab");
    input.right();
    assert_eq!(input.cursor, 2, "cursor must not run past the end");
    input.left();
    input.left();
    input.left();
    assert_eq!(input.cursor, 0, "cursor must not go below 0");
}

#[test]
fn insert_and_backspace_handle_multibyte_characters_correctly() {
    let mut input = TextInput::with_value("café");
    assert_eq!(input.cursor, 4);
    input.backspace();
    assert_eq!(input.value, "caf");
    input.insert('é');
    assert_eq!(input.value, "café");
}

#[test]
fn insert_past_the_end_appends_and_still_advances_the_cursor() {
    let mut input = TextInput { value: "ab".to_string(), cursor: 7 };
    input.insert('c');
    assert_eq!(input.value, "abc");
    assert_eq!(input.cursor, 8);
}

#[test]
fn backspace_undoes_insert_in_the_middle() {
    let mut input = TextInput::with_value("héllo");
    input.left();
    input.left();
    let before = input.clone();
    input.insert('ü');
    input.backspace();
    assert_eq!(input.value, before.value);
    assert_eq!(input.cursor, before.cursor);
}

// -- TextArea ---------------------------------------------------------------

#[test]
fn newline_splits_the_current_line_at_the_cursor() {
    let mut area = TextArea::default();
    for c in "hello".chars() {
        area.insert(c);
    }
    area.cursor_col = 2;
    area.newline();

    assert_eq!(area.lines, vec!["he".to_string(), "llo".to_string()]);
    assert_eq!(area.cursor_row, 1);
    assert_eq!(area.cursor_col, 0);
}

#[test]
fn backspace_at_start_of_line_joins_it_with_the_previous_one() {
    let mut area = TextArea::default();
    for c in "ab".chars() {
        area.insert(c);
    }
    area.newline();
    for c in "cd".chars() {
        area.insert(c);
    }
    area.cursor_col = 0;
    area.backspace();

    assert_eq!(area.lines, vec!["abcd".to_string()]);
    assert_eq!(area.cursor_row, 0);
    assert_eq!(area.cursor_col, 2, "cursor lands at the join point");
}

#[test]
fn backspace_at_the_very_start_of_the_document_is_a_no_op() {
    let mut area = TextArea::default();
    area.backspace();
    assert_eq!(area.lines, vec!["".to_string()]);
    assert_eq!(area.cursor_row, 0);
    assert_eq!(area.cursor_col, 0);
}

#[test]
fn up_and_down_clamp_the_column_to_the_shorter_lines_length() {
    let mut area = TextArea::default();
    for c in "long line".chars() {
        area.insert(c);
    }
    area.newline();
    area.insert('x');
    area.up();
    assert_eq!(area.cursor_row, 0);
    assert_eq!(area.cursor_col, 1, "moving up keeps the column when the line above is long enough");

    area.cursor_col = "long line".chars().count();
    area.down();
    assert_eq!(area.cursor_row, 1);
    assert_eq!(area.cursor_col, 1, "moving down onto a shorter line clamps the column");
}

#[test]
fn text_joins_lines_with_newlines() {
    let mut area = TextArea::default();
    for c in "ab".chars() {
        area.insert(c);
    }
    area.newline();
    for c in "cd".chars() {
        area.insert(c);
    }
    assert_eq!(area.text(), "ab\ncd");
}

#[test]
fn right_wraps_to_the_start_of_the_next_line_at_end_of_line() {
    let mut area = TextArea::default();
    area.insert('a');
    area.newline();
    area.insert('b');
    area.cursor_row = 0;
    area.cursor_col = 1;

    area.right();

    assert_eq!(area.cursor_row, 1);
    assert_eq!(area.cursor_col, 0);
}

#[test]
fn left_at_the_start_of_a_line_wraps_to_the_end_of_the_previous_one() {
    let mut area = TextArea::default();
    for c in "über".chars() {
        area.insert(c);
    }
    area.newline();
    area.left();
    assert_eq!(area.cursor_row, 0);
    assert_eq!(area.cursor_col, 4);
}

#[test]
fn newline_then_backspace_restores_the_lines() {
    let mut area = TextArea::default();
    for c in "hello".chars() {
        area.insert(c);
    }
    area.cursor_col = 3;
    area.newline();
    area.backspace();
    assert_eq!(area.lines, vec!["hello".to_string()]);
    assert_eq!(area.cursor_row, 0);
    assert_eq!(area.cursor_col, 3);
}

#[test]
fn newline_puts_one_line_break_into_the_text_at_the_cursor() {
    let mut area = TextArea::default();
    for c in "ab".chars() {
        area.insert(c);
    }
    area.newline();
    for c in "cdef".chars() {
        area.insert(c);
    }
    // "ab\ncdef": row 1, column 2 is character offset 3 + 2 = 5.
    area.cursor_col = 2;
    let before = area.text();
    area.newline();
    let after = area.text();
    assert_eq!(before, "ab\ncdef");
    assert_eq!(after, "ab\ncd\nef");
    let mut expected: Vec<char> = before.chars().collect();
    expected.insert(5, '\n');
    assert_eq!(after.chars().collect::<Vec<char>>(), expected);
    assert_eq!(area.lines.len(), 3);
}
