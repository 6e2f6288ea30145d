use termicode::app::{App, InputKey, Step};
use termicode::data::parse_unicode_data;
use termicode::editor::{CursorMove, SearchBox};
use termicode::output::{
    codepoint_decimal, format_default_line, invalid_mode_message, parse_output_mode, symbol_of,
    symbol_string, OutputMode,
};
use termicode::selection::SearchSelection;

fn typed(text: &str) -> SearchBox {
    let mut sb = SearchBox::new();
    for c in text.chars() {
        sb.add_char(c);
    }
    sb
}

#[test]
fn add_char_inserts_at_caret() {
    let mut sb = typed("AC");
    sb.move_cursor(CursorMove::Left);
    sb.add_char('B');
    assert_eq!(sb.input, "ABC");
    assert_eq!(sb.cursor_position, 2);
}

#[test]
fn delete_char_removes_before_caret() {
    let mut sb = typed("ABC");
    sb.move_cursor(CursorMove::Left);
    sb.delete_char();
    assert_eq!(sb.input, "AC");
    assert_eq!(sb.cursor_position, 1);
}

#[test]
fn delete_char_at_start_does_nothing() {
    let mut sb = typed("AB");
    sb.move_cursor(CursorMove::Left);
    sb.move_cursor(CursorMove::Left);
    sb.delete_char();
    assert_eq!(sb.input, "AB");
    assert_eq!(sb.cursor_position, 0);
}

#[test]
fn cursor_clamps_at_both_ends() {
    let mut sb = typed("AB");
    sb.move_cursor(CursorMove::Right);
    assert_eq!(sb.cursor_position, 2);
    sb.move_cursor(CursorMove::Left);
    sb.move_cursor(CursorMove::Left);
    sb.move_cursor(CursorMove::Left);
    assert_eq!(sb.cursor_position, 0);
}

#[test]
fn word_delete_boundary() {
    let mut sb = typed("HELLO WORLD");
    sb.delete_word();
    assert_eq!(sb.input, "HELLO ");
    assert_eq!(sb.cursor_position, 6);
    sb.delete_word();
    assert_eq!(sb.input, "");
    assert_eq!(sb.cursor_position, 0);
}

#[test]
fn word_delete_keeps_text_after_caret() {
    let mut sb = typed("ALPHA BETA TAIL");
    for _ in 0..5 {
        sb.move_cursor(CursorMove::Left);
    }
    sb.delete_word();
    assert_eq!(sb.input, "ALPHA  TAIL");
    assert_eq!(sb.cursor_position, 6);
}

#[test]
fn rendered_input_marks_caret() {
    let mut sb = typed("AB");
    sb.move_cursor(CursorMove::Left);
    assert_eq!(sb.get_rendered_input(), "A\u{258F}B");
}

#[test]
fn selection_wrap() {
    let results: Vec<usize> = vec![0, 1, 2];

    let mut fresh = SearchSelection::new();
    assert_eq!(fresh.selected_index(), None);
    fresh.move_up(results.len());
    assert_eq!(fresh.selected_index(), Some(0));

    let mut s = SearchSelection::new();
    s.move_down(results.len());
    s.move_down(results.len());
    s.move_down(results.len());
    assert_eq!(s.selected_index(), Some(2));
    s.move_down(results.len());
    assert_eq!(s.selected_index(), Some(0));
    s.move_up(results.len());
    assert_eq!(s.selected_index(), Some(2));
}

#[test]
fn selection_ignores_empty_list() {
    let mut s = SearchSelection::new();
    s.move_up(0);
    s.move_down(0);
    assert_eq!(s.selected_index(), None);
    assert_eq!(s.get_selection(&Vec::new()), None);
}

#[test]
fn default_selection_confirms_first_result() {
    let text = "1;ONE;Lu\n2;TWO;Lu\n3;THREE;Lu\n";
    let file = parse_unicode_data(text).expect("table should parse");
    let mut app = App::new(&file);
    app.update_query();
    let chosen = app.get_selection().expect("non-empty results confirm something");
    assert_eq!(chosen.codepoint, 1);
}

#[test]
fn navigation_changes_confirmed_record() {
    let text = "1;ONE;Lu\n2;TWO;Lu\n3;THREE;Lu\n";
    let file = parse_unicode_data(text).expect("table should parse");
    let mut app = App::new(&file);
    app.update_query();
    app.selection_down();
    app.selection_down();
    assert_eq!(app.get_selection().unwrap().codepoint, 2);
    app.selection_down();
    assert_eq!(app.get_selection().unwrap().codepoint, 3);
    app.selection_down();
    assert_eq!(app.get_selection().unwrap().codepoint, 1);
}

#[test]
fn key_dispatch_edits_and_requeries() {
    let text = "1;BLACK CAT FACE;So\n2;DOG FACE;So\n3;CATTLE MARK;So\n";
    let file = parse_unicode_data(text).expect("table should parse");
    let mut app = App::new(&file);
    app.update_query();
    assert_eq!(app.results.len(), 3);
    for c in "cat".chars() {
        assert_eq!(app.handle_key(InputKey::Character(c)), Step::Continue);
    }
    assert_eq!(app.results.len(), 2);
    assert_eq!(app.handle_key(InputKey::Backspace), Step::Continue);
    assert_eq!(app.search_box.input, "ca");
    assert_eq!(app.handle_key(InputKey::Down), Step::Continue);
    assert_eq!(app.handle_key(InputKey::Enter), Step::Confirm);
    assert_eq!(app.get_selection().unwrap().codepoint, 1);
    assert_eq!(app.handle_key(InputKey::Escape), Step::Cancel);
}

#[test]
fn arrow_keys_do_not_touch_selection() {
    let text = "1;ONE;Lu\n2;TWO;Lu\n";
    let file = parse_unicode_data(text).expect("table should parse");
    let mut app = App::new(&file);
    app.update_query();
    app.handle_key(InputKey::Down);
    app.handle_key(InputKey::Down);
    app.handle_key(InputKey::Left);
    app.handle_key(InputKey::Right);
    app.handle_key(InputKey::Other);
    assert_eq!(app.selection_index(), Some(1));
}

#[test]
fn word_backspace_through_dispatch() {
    let text = "1;ONE;Lu\n";
    let file = parse_unicode_data(text).expect("table should parse");
    let mut app = App::new(&file);
    app.update_query();
    for c in "HELLO WORLD".chars() {
        app.handle_key(InputKey::Character(c));
    }
    app.handle_key(InputKey::WordBackspace);
    assert_eq!(app.search_box.input, "HELLO ");
}

#[test]
fn symbol_of_valid_and_invalid_codepoints() {
    assert_eq!(symbol_of(0x41), 'A');
    assert_eq!(symbol_of(0x1f600), '\u{1F600}');
    assert_eq!(symbol_of(0xD800), '\u{FFFD}');
    assert_eq!(symbol_of(0x110000), '\u{FFFD}');
    assert_eq!(symbol_string('A'), "A");
}

#[test]
fn codepoint_decimal_text() {
    assert_eq!(codepoint_decimal(0), "0");
    assert_eq!(codepoint_decimal(128512), "128512");
}

#[test]
fn default_line_format() {
    let text = "1f600;GRINNING FACE;So\n";
    let file = parse_unicode_data(text).expect("table should parse");
    let rec = &file.records[0];
    let line = format_default_line(symbol_of(rec.codepoint), rec);
    assert_eq!(line, "\u{1F600} (0x1f600) - GRINNING FACE");
}

#[test]
fn output_mode_choices() {
    assert_eq!(parse_output_mode("symbol"), Some(OutputMode::Symbol));
    assert_eq!(parse_output_mode("codepoint"), Some(OutputMode::Codepoint));
    assert_eq!(parse_output_mode("name"), Some(OutputMode::Name));
    assert_eq!(parse_output_mode("glyph"), None);
    assert_eq!(
        invalid_mode_message("glyph"),
        "invalid display type \"glyph\". Choose one of: symbol, codepoint, name"
    );
}
