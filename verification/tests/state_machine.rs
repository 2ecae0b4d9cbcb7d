use combat_tracker::app::{App, Mode};
use combat_tracker::keys::{KeyCode, KeyEvent};

fn press(code: KeyCode) -> KeyEvent {
    KeyEvent::press(code)
}

fn tap(app: &mut App, c: char) {
    app.handle_key(press(KeyCode::Char(c)));
}

fn names(app: &App) -> Vec<String> {
    app.creatures().iter().map(|c| c.name.clone()).collect()
}

#[test]
fn starts_empty_without_demo() {
    let app = App::new(false);
    assert!(app.running());
    assert!(matches!(app.mode(), Mode::Normal));
    assert_eq!(app.selected_creature(), None);
    assert_eq!(app.creatures().len(), 0);
}

#[test]
fn starts_with_demo_roster() {
    let app = App::new(true);
    assert_eq!(names(&app), vec!["Goblin", "Chodlin", "Boblin"]);
    assert_eq!(app.creatures()[0].health, 5);
    assert_eq!(app.creatures()[1].health, 4);
    assert_eq!(app.creatures()[2].health, 4);
    assert_eq!(app.selected_creature(), Some(0));
}

#[test]
fn add_on_empty_enters_rename_and_cancel_keeps_creature() {
    // Adding always opens rename with an empty buffer; cancel reverts the
    // name buffer, not the add.
    let mut app = App::new(false);
    tap(&mut app, 'a');
    assert_eq!(app.creatures().len(), 1);
    assert_eq!(app.selected_creature(), Some(0));
    match app.mode() {
        Mode::Rename(buf) => assert_eq!(buf, ""),
        other => panic!("expected rename mode, got {:?}", other),
    }
    app.handle_key(press(KeyCode::Esc));
    assert!(matches!(app.mode(), Mode::Normal));
    assert_eq!(app.creatures().len(), 1);
    assert_eq!(app.creatures()[0].name, "");
}

#[test]
fn sort_by_health_ascending_is_stable() {
    // Goblin(5), Chodlin(4), Boblin(4): ascending by health puts the two
    // at 4 first, keeping Chodlin before Boblin.
    let mut app = App::new(true);
    tap(&mut app, 's');
    assert!(matches!(app.mode(), Mode::Sort));
    tap(&mut app, 'h');
    assert!(matches!(app.mode(), Mode::Normal));
    assert_eq!(names(&app), vec!["Chodlin", "Boblin", "Goblin"]);
}

#[test]
fn sort_by_health_descending() {
    let mut app = App::new(true);
    tap(&mut app, 's');
    tap(&mut app, 'H');
    assert_eq!(names(&app), vec!["Goblin", "Chodlin", "Boblin"]);
}

#[test]
fn sort_by_name_both_directions() {
    let mut app = App::new(true);
    tap(&mut app, 's');
    tap(&mut app, 'n');
    assert_eq!(names(&app), vec!["Boblin", "Chodlin", "Goblin"]);
    tap(&mut app, 's');
    tap(&mut app, 'N');
    assert_eq!(names(&app), vec!["Goblin", "Chodlin", "Boblin"]);
}

#[test]
fn sort_with_all_ties_keeps_order() {
    // Every demo creature has initiative 0: sorting by initiative in
    // either direction must keep the original order.
    let mut app = App::new(true);
    tap(&mut app, 's');
    tap(&mut app, 'i');
    assert_eq!(names(&app), vec!["Goblin", "Chodlin", "Boblin"]);
    tap(&mut app, 's');
    tap(&mut app, 'I');
    assert_eq!(names(&app), vec!["Goblin", "Chodlin", "Boblin"]);
}

#[test]
fn sort_twice_same_axis_is_idempotent() {
    let mut app = App::new(true);
    tap(&mut app, 's');
    tap(&mut app, 'h');
    let once = names(&app);
    tap(&mut app, 's');
    tap(&mut app, 'h');
    assert_eq!(names(&app), once);
}

#[test]
fn sort_menu_escape_cancels() {
    let mut app = App::new(true);
    tap(&mut app, 's');
    app.handle_key(press(KeyCode::Esc));
    assert!(matches!(app.mode(), Mode::Normal));
    assert_eq!(names(&app), vec!["Goblin", "Chodlin", "Boblin"]);
}

#[test]
fn navigation_wraps_both_ways() {
    let mut app = App::new(true);
    assert_eq!(app.selected_creature(), Some(0));
    tap(&mut app, 'k');
    assert_eq!(app.selected_creature(), Some(2));
    tap(&mut app, 'j');
    assert_eq!(app.selected_creature(), Some(0));
    tap(&mut app, 'j');
    assert_eq!(app.selected_creature(), Some(1));
    tap(&mut app, 'J');
    assert_eq!(app.selected_creature(), Some(2));
    tap(&mut app, 'K');
    assert_eq!(app.selected_creature(), Some(0));
}

#[test]
fn navigation_on_empty_roster_is_noop() {
    let mut app = App::new(false);
    for c in ['j', 'k', 'J', 'K'] {
        tap(&mut app, c);
        assert_eq!(app.selected_creature(), None);
        assert_eq!(app.creatures().len(), 0);
    }
}

#[test]
fn delete_middle_keeps_index() {
    // Deleting index 1 of 3 leaves 2 and selects index 1 again: the row
    // that slid into the hole.
    let mut app = App::new(true);
    tap(&mut app, 'j');
    assert_eq!(app.selected_creature(), Some(1));
    tap(&mut app, 'd');
    assert_eq!(app.creatures().len(), 2);
    assert_eq!(app.selected_creature(), Some(1));
    assert_eq!(names(&app), vec!["Goblin", "Boblin"]);
}

#[test]
fn delete_last_selects_new_last() {
    let mut app = App::new(true);
    tap(&mut app, 'J');
    assert_eq!(app.selected_creature(), Some(2));
    tap(&mut app, 'd');
    assert_eq!(app.creatures().len(), 2);
    assert_eq!(app.selected_creature(), Some(1));
}

#[test]
fn delete_down_to_empty_clears_selection() {
    let mut app = App::new(true);
    tap(&mut app, 'd');
    tap(&mut app, 'd');
    tap(&mut app, 'd');
    assert_eq!(app.creatures().len(), 0);
    assert_eq!(app.selected_creature(), None);
    tap(&mut app, 'd');
    assert_eq!(app.creatures().len(), 0);
}

#[test]
fn duplicate_inserts_clone_after_hovered() {
    let mut app = App::new(true);
    tap(&mut app, 'c');
    assert_eq!(names(&app), vec!["Goblin", "Goblin", "Chodlin", "Boblin"]);
    assert_eq!(app.creatures()[1].health, 5);
    assert_eq!(app.creatures()[1].notes, "Very gobliny");
    assert_eq!(app.selected_creature(), Some(0));
}

#[test]
fn digit_entry_from_zero_builds_123() {
    // A fresh creature has health 0: typing 1, 2, 3 builds the value 123.
    let mut app = App::new(false);
    tap(&mut app, 'a');
    app.handle_key(press(KeyCode::Esc));
    tap(&mut app, 'h');
    assert!(matches!(app.mode(), Mode::SetHealth(0)));
    tap(&mut app, '1');
    tap(&mut app, '2');
    tap(&mut app, '3');
    assert!(matches!(app.mode(), Mode::SetHealth(123)));
    app.handle_key(press(KeyCode::Enter));
    assert!(matches!(app.mode(), Mode::Normal));
    assert_eq!(app.creatures()[0].health, 123);
}

#[test]
fn backspace_from_single_digit_gives_zero() {
    // Backspace on "5" empties the buffer, which parses to zero.
    let mut app = App::new(true);
    tap(&mut app, 'h');
    assert!(matches!(app.mode(), Mode::SetHealth(5)));
    app.handle_key(press(KeyCode::Backspace));
    assert!(matches!(app.mode(), Mode::SetHealth(0)));
    app.handle_key(press(KeyCode::Enter));
    assert_eq!(app.creatures()[0].health, 0);
}

#[test]
fn health_edit_cancel_restores_pre_edit_value() {
    let mut app = App::new(true);
    tap(&mut app, 'h');
    tap(&mut app, '9');
    tap(&mut app, '9');
    assert!(matches!(app.mode(), Mode::SetHealth(599)));
    app.handle_key(press(KeyCode::Esc));
    assert!(matches!(app.mode(), Mode::Normal));
    assert_eq!(app.creatures()[0].health, 5);
}

#[test]
fn confirm_then_reenter_and_cancel_is_noop() {
    let mut app = App::new(true);
    tap(&mut app, 'h');
    tap(&mut app, '4');
    app.handle_key(press(KeyCode::Enter));
    assert_eq!(app.creatures()[0].health, 54);
    tap(&mut app, 'h');
    app.handle_key(press(KeyCode::Esc));
    assert_eq!(app.creatures()[0].health, 54);
    assert!(matches!(app.mode(), Mode::Normal));
}

#[test]
fn initiative_edit_commits() {
    let mut app = App::new(true);
    tap(&mut app, 'i');
    assert!(matches!(app.mode(), Mode::SetInitiative(0)));
    tap(&mut app, '1');
    tap(&mut app, '7');
    app.handle_key(press(KeyCode::Enter));
    assert_eq!(app.creatures()[0].initiative, 17);
    assert_eq!(app.creatures()[0].health, 5);
}

#[test]
fn non_digit_keys_are_ignored_in_numeric_edit() {
    let mut app = App::new(true);
    tap(&mut app, 'h');
    tap(&mut app, 'x');
    tap(&mut app, '7');
    assert!(matches!(app.mode(), Mode::SetHealth(57)));
}

#[test]
fn rename_edits_buffer_and_commits() {
    let mut app = App::new(true);
    tap(&mut app, 'r');
    match app.mode() {
        Mode::Rename(buf) => assert_eq!(buf, "Goblin"),
        other => panic!("expected rename mode, got {:?}", other),
    }
    app.handle_key(press(KeyCode::Backspace));
    tap(&mut app, 't');
    tap(&mut app, 'e');
    app.handle_key(press(KeyCode::Enter));
    assert_eq!(app.creatures()[0].name, "Goblite");
}

#[test]
fn rename_cancel_restores_name() {
    let mut app = App::new(true);
    tap(&mut app, 'r');
    tap(&mut app, 'x');
    tap(&mut app, 'y');
    app.handle_key(press(KeyCode::Backspace));
    // The stored name is untouched while the buffer is being edited.
    assert_eq!(app.creatures()[0].name, "Goblin");
    app.handle_key(press(KeyCode::Esc));
    assert_eq!(app.creatures()[0].name, "Goblin");
}

#[test]
fn health_shift_increase_applies_on_confirm() {
    let mut app = App::new(true);
    tap(&mut app, '+');
    assert!(matches!(app.mode(), Mode::HealthShift));
    assert!(app.creatures()[0].health_shift.is_some());
    tap(&mut app, '3');
    app.handle_key(press(KeyCode::Enter));
    assert!(matches!(app.mode(), Mode::Normal));
    assert_eq!(app.creatures()[0].health, 8);
    assert!(app.creatures()[0].health_shift.is_none());
}

#[test]
fn health_shift_decrease_can_go_negative() {
    let mut app = App::new(true);
    tap(&mut app, '-');
    tap(&mut app, '1');
    tap(&mut app, '0');
    app.handle_key(press(KeyCode::Enter));
    assert_eq!(app.creatures()[0].health, -5);
    assert!(app.creatures()[0].health_shift.is_none());
}

#[test]
fn health_shift_cancel_clears_without_touching_health() {
    let mut app = App::new(true);
    tap(&mut app, '-');
    tap(&mut app, '7');
    app.handle_key(press(KeyCode::Esc));
    assert!(matches!(app.mode(), Mode::Normal));
    assert_eq!(app.creatures()[0].health, 5);
    assert!(app.creatures()[0].health_shift.is_none());
}

#[test]
fn confirm_quit_resume_and_quit() {
    let mut app = App::new(true);
    app.handle_key(press(KeyCode::Esc));
    assert!(matches!(app.mode(), Mode::ConfirmQuit(false)));
    app.handle_key(press(KeyCode::Enter));
    assert!(matches!(app.mode(), Mode::Normal));
    assert!(app.running());
    app.handle_key(press(KeyCode::Esc));
    tap(&mut app, 'j');
    assert!(matches!(app.mode(), Mode::ConfirmQuit(true)));
    tap(&mut app, 'k');
    assert!(matches!(app.mode(), Mode::ConfirmQuit(false)));
    tap(&mut app, 'j');
    app.handle_key(press(KeyCode::Enter));
    assert!(!app.running());
}

#[test]
fn confirm_quit_escape_resumes() {
    let mut app = App::new(true);
    app.handle_key(press(KeyCode::Esc));
    app.handle_key(press(KeyCode::Esc));
    assert!(matches!(app.mode(), Mode::Normal));
    assert!(app.running());
}

#[test]
fn help_opens_and_closes() {
    let mut app = App::new(true);
    tap(&mut app, '?');
    assert!(matches!(app.mode(), Mode::Help));
    tap(&mut app, 'x');
    assert!(matches!(app.mode(), Mode::Help));
    app.handle_key(press(KeyCode::Esc));
    assert!(matches!(app.mode(), Mode::Normal));
}

#[test]
fn release_events_are_ignored_outside_notes() {
    let mut app = App::new(true);
    let release = KeyEvent { code: KeyCode::Char('j'), alt: false, press: false };
    app.handle_key(release);
    assert_eq!(app.selected_creature(), Some(0));
    assert!(matches!(app.mode(), Mode::Normal));
}

#[test]
fn hovered_creature_follows_selection() {
    let mut app = App::new(true);
    assert_eq!(app.hovered_creature().unwrap().name, "Goblin");
    tap(&mut app, 'j');
    assert_eq!(app.hovered_creature().unwrap().name, "Chodlin");
    let empty = App::new(false);
    assert!(empty.hovered_creature().is_none());
}

#[test]
fn edit_actions_require_a_hovered_creature() {
    let mut app = App::new(false);
    for c in ['r', 'n', 'c', 'd', 'h', 'i', '+', '-'] {
        tap(&mut app, c);
        assert!(matches!(app.mode(), Mode::Normal));
        assert_eq!(app.creatures().len(), 0);
    }
}
