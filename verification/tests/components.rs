use combat_tracker::app::{App, Mode};
use combat_tracker::creature::{Creature, HealthShift};
use combat_tracker::editor::NotesEditor;
use combat_tracker::keys::{KeyCode, KeyEvent};
use combat_tracker::num::{i32_to_string, numeric_backspace, numeric_push_digit};
use combat_tracker::present::quit_menu_labels;
use combat_tracker::sort::{sort_creatures, str_lex_le, SortField};
use combat_tracker::text::{join_lines_exec, split_lines_exec};

fn key(code: KeyCode) -> KeyEvent {
    KeyEvent::press(code)
}

fn plain_creature(name: &str, health: i32, initiative: i32) -> Creature {
    Creature {
        name: name.to_string(),
        health,
        health_shift: None,
        initiative,
        notes: String::new(),
        notes_cursor_pos: (0, 0),
    }
}

#[test]
fn numeric_push_digit_builds_decimal() {
    assert_eq!(numeric_push_digit(0, '1'), 1);
    assert_eq!(numeric_push_digit(1, '2'), 12);
    assert_eq!(numeric_push_digit(12, '3'), 123);
    assert_eq!(numeric_push_digit(-4, '2'), -42);
}

#[test]
fn numeric_push_digit_overflow_resets_to_zero() {
    assert_eq!(numeric_push_digit(214748364, '7'), 2147483647);
    assert_eq!(numeric_push_digit(214748364, '8'), 0);
    assert_eq!(numeric_push_digit(-214748364, '8'), -2147483648);
    assert_eq!(numeric_push_digit(-214748364, '9'), 0);
}

#[test]
fn numeric_backspace_drops_last_digit() {
    assert_eq!(numeric_backspace(123), 12);
    assert_eq!(numeric_backspace(-53), -5);
    assert_eq!(numeric_backspace(5), 0);
    assert_eq!(numeric_backspace(-5), 0);
    assert_eq!(numeric_backspace(0), 0);
    assert_eq!(numeric_backspace(-2147483648), -214748364);
}

#[test]
fn i32_to_string_canonical() {
    assert_eq!(i32_to_string(0), "0");
    assert_eq!(i32_to_string(7), "7");
    assert_eq!(i32_to_string(-42), "-42");
    assert_eq!(i32_to_string(2147483647), "2147483647");
    assert_eq!(i32_to_string(-2147483648), "-2147483648");
}

#[test]
fn shift_label_shows_sign_and_magnitude() {
    assert_eq!(HealthShift::Increase(3).label(), "+3");
    assert_eq!(HealthShift::Decrease(12).label(), "-12");
    assert_eq!(HealthShift::Increase(0).label(), "+0");
}

#[test]
fn split_and_join_lines_round_trip() {
    let lines = split_lines_exec("a\n\nbc");
    let as_strings: Vec<String> = lines.iter().map(|l| l.iter().collect()).collect();
    assert_eq!(as_strings, vec!["a", "", "bc"]);
    assert_eq!(join_lines_exec(&lines), "a\n\nbc");

    let empty = split_lines_exec("");
    assert_eq!(empty.len(), 1);
    assert!(empty[0].is_empty());
    assert_eq!(join_lines_exec(&empty), "");

    let trailing = split_lines_exec("x\n");
    assert_eq!(trailing.len(), 2);
    assert_eq!(join_lines_exec(&trailing), "x\n");
}

#[test]
fn editor_seed_clamps_cursor() {
    let ed = NotesEditor::seed("ab\ncd", 9, 9);
    assert_eq!(ed.cursor(), (1, 2));
    let ed2 = NotesEditor::seed("ab\ncd", 0, 9);
    assert_eq!(ed2.cursor(), (0, 2));
}

#[test]
fn editor_insert_backspace_and_newline() {
    let mut ed = NotesEditor::seed("ab", 0, 1);
    ed.input(key(KeyCode::Char('x')));
    assert_eq!(ed.line_strings(), vec!["axb"]);
    assert_eq!(ed.cursor(), (0, 2));
    ed.input(key(KeyCode::Enter));
    assert_eq!(ed.line_strings(), vec!["ax", "b"]);
    assert_eq!(ed.cursor(), (1, 0));
    ed.input(key(KeyCode::Backspace));
    assert_eq!(ed.line_strings(), vec!["axb"]);
    assert_eq!(ed.cursor(), (0, 2));
    ed.input(key(KeyCode::Backspace));
    ed.input(key(KeyCode::Backspace));
    assert_eq!(ed.line_strings(), vec!["b"]);
    assert_eq!(ed.cursor(), (0, 0));
    ed.input(key(KeyCode::Backspace));
    assert_eq!(ed.line_strings(), vec!["b"]);
}

#[test]
fn editor_arrow_navigation() {
    let mut ed = NotesEditor::seed("abc\nd", 0, 3);
    ed.input(key(KeyCode::Down));
    assert_eq!(ed.cursor(), (1, 1));
    ed.input(key(KeyCode::Up));
    assert_eq!(ed.cursor(), (0, 1));
    ed.input(key(KeyCode::Left));
    assert_eq!(ed.cursor(), (0, 0));
    ed.input(key(KeyCode::Left));
    assert_eq!(ed.cursor(), (0, 0));
    ed.input(key(KeyCode::Right));
    assert_eq!(ed.cursor(), (0, 1));
    ed.input(key(KeyCode::Right));
    ed.input(key(KeyCode::Right));
    ed.input(key(KeyCode::Right));
    assert_eq!(ed.cursor(), (1, 0));
}

#[test]
fn editor_refuses_literal_newline_character() {
    let mut ed = NotesEditor::seed("ab", 0, 0);
    ed.input(key(KeyCode::Char('\n')));
    assert_eq!(ed.line_strings(), vec!["ab"]);
    assert_eq!(ed.cursor(), (0, 0));
}

#[test]
fn notes_mode_inserts_and_commits_on_escape() {
    let mut app = App::new(true);
    app.handle_key(key(KeyCode::Char('K')));
    app.handle_key(key(KeyCode::Char('n')));
    assert!(matches!(app.mode(), Mode::EditNotes));
    app.handle_key(key(KeyCode::Char('!')));
    app.handle_key(key(KeyCode::Esc));
    assert!(matches!(app.mode(), Mode::Normal));
    assert_eq!(app.creatures()[0].notes, "!Very gobliny");
    assert_eq!(app.creatures()[0].notes_cursor_pos, (0, 1));
}

#[test]
fn notes_mode_alt_enter_breaks_line_and_plain_enter_confirms() {
    let mut app = App::new(true);
    app.handle_key(key(KeyCode::Char('K')));
    app.handle_key(key(KeyCode::Char('n')));
    let alt_enter = KeyEvent { code: KeyCode::Enter, alt: true, press: true };
    app.handle_key(alt_enter);
    assert!(matches!(app.mode(), Mode::EditNotes));
    app.handle_key(key(KeyCode::Enter));
    assert!(matches!(app.mode(), Mode::Normal));
    assert_eq!(app.creatures()[0].notes, "\nVery gobliny");
    assert_eq!(app.creatures()[0].notes_cursor_pos, (1, 0));
}

#[test]
fn selection_reseeds_notes_editor() {
    let mut app = App::new(true);
    app.handle_key(key(KeyCode::Char('j')));
    assert_eq!(app.editor().line_strings(), vec!["Cousin of Boblin"]);
    app.handle_key(key(KeyCode::Char('j')));
    assert_eq!(app.editor().line_strings(), vec!["The goblin"]);
}

#[test]
fn notes_cursor_position_survives_reselection() {
    let mut app = App::new(true);
    app.handle_key(key(KeyCode::Char('K')));
    app.handle_key(key(KeyCode::Char('n')));
    app.handle_key(key(KeyCode::Right));
    app.handle_key(key(KeyCode::Right));
    app.handle_key(key(KeyCode::Esc));
    assert_eq!(app.creatures()[0].notes_cursor_pos, (0, 2));
    app.handle_key(key(KeyCode::Char('j')));
    app.handle_key(key(KeyCode::Char('k')));
    assert_eq!(app.editor().cursor(), (0, 2));
}

#[test]
fn str_lex_le_orders_like_strings() {
    assert!(str_lex_le("abc", "abd"));
    assert!(!str_lex_le("abd", "abc"));
    assert!(str_lex_le("", "a"));
    assert!(!str_lex_le("a", ""));
    assert!(str_lex_le("same", "same"));
    assert!(str_lex_le("ab", "abc"));
}

#[test]
fn sort_creatures_is_stable_on_ties() {
    let mut v = vec![
        plain_creature("A", 5, 0),
        plain_creature("B", 4, 0),
        plain_creature("C", 4, 0),
    ];
    sort_creatures(&mut v, SortField::Health, false);
    let order: Vec<&str> = v.iter().map(|c| c.name.as_str()).collect();
    assert_eq!(order, vec!["B", "C", "A"]);
}

#[test]
fn sort_creatures_descending_reverses_axis() {
    let mut v = vec![
        plain_creature("low", 1, 3),
        plain_creature("high", 9, 1),
        plain_creature("mid", 5, 2),
    ];
    sort_creatures(&mut v, SortField::Health, true);
    let order: Vec<&str> = v.iter().map(|c| c.name.as_str()).collect();
    assert_eq!(order, vec!["high", "mid", "low"]);
    sort_creatures(&mut v, SortField::Initiative, false);
    let order2: Vec<&str> = v.iter().map(|c| c.name.as_str()).collect();
    assert_eq!(order2, vec!["high", "mid", "low"]);
}

#[test]
fn row_render_shows_placeholder_and_shift() {
    let mut c = plain_creature("", 12, 4);
    c.health_shift = Some(HealthShift::Increase(3));
    let (init_text, name_text, health_text, selected) = c.render(0, Some(0));
    assert_eq!(init_text, "4");
    assert_eq!(name_text, "<empty>");
    assert_eq!(health_text, "12 +3");
    assert!(selected);
    let (_, _, _, unselected) = c.render(0, Some(1));
    assert!(!unselected);
    let (_, _, _, none_selected) = c.render(0, None);
    assert!(!none_selected);
}

#[test]
fn row_shows_live_buffer_during_health_edit() {
    let mut app = App::new(true);
    app.handle_key(key(KeyCode::Char('h')));
    app.handle_key(key(KeyCode::Char('9')));
    let (_, name_text, health_text, hovered) = app.row(0);
    assert_eq!(name_text, "Goblin");
    assert_eq!(health_text, "59");
    assert!(hovered);
    assert_eq!(app.creatures()[0].health, 5);
    let (_, _, other_health, other_hovered) = app.row(1);
    assert_eq!(other_health, "4");
    assert!(!other_hovered);
}

#[test]
fn row_shows_live_buffer_during_rename() {
    let mut app = App::new(true);
    app.handle_key(key(KeyCode::Char('r')));
    app.handle_key(key(KeyCode::Backspace));
    let (_, name_text, _, _) = app.row(0);
    assert_eq!(name_text, "Gobli");
    assert_eq!(app.creatures()[0].name, "Goblin");
}

#[test]
fn instructions_match_each_mode() {
    let normal = Mode::Normal.get_instructions();
    let texts: Vec<&str> = normal.iter().map(|(t, _)| t.as_str()).collect();
    assert_eq!(texts, vec![" Exit: ", "Esc", " Help: ", "? "]);
    let accents: Vec<bool> = normal.iter().map(|(_, a)| *a).collect();
    assert_eq!(accents, vec![false, true, false, true]);

    let rename = Mode::Rename(String::new()).get_instructions();
    let texts: Vec<&str> = rename.iter().map(|(t, _)| t.as_str()).collect();
    assert_eq!(texts, vec![" Confirm: ", "Enter", ", Cancel: ", "Esc "]);

    let notes = Mode::EditNotes.get_instructions();
    let texts: Vec<&str> = notes.iter().map(|(t, _)| t.as_str()).collect();
    assert_eq!(
        texts,
        vec![" Confirm: ", "Enter", " (use alt to break lines), Cancel: ", "Esc "]
    );

    let menu = Mode::ConfirmQuit(false).get_instructions();
    assert_eq!(menu.len(), 6);
    let labels = quit_menu_labels();
    assert_eq!(labels.0, "Return to normal mode");
    assert_eq!(labels.1, "Quit");
}
