use tmux_selector::app::{Action, App, Prompt};
use tmux_selector::events::{
    decide_action, handle_input, handle_key, handle_mouse, handle_prompt_key, Input, Key, KeyPress,
    MouseInput, MouseKind, Outcome,
};
use tmux_selector::mouse::{MouseMap, Rect, Region, Segment};
use tmux_selector::ssh::{Session, SessionAction};

fn sess(name: &str, running: bool, activity_ts: i64, dir: &str) -> Session {
    Session {
        name: name.to_string(),
        running,
        created: String::new(),
        activity: String::new(),
        activity_ts,
        dir: dir.to_string(),
    }
}

fn three() -> App {
    App::new(vec![
        sess("p/live", true, 9, "/live"),
        sess("p/dir", false, 8, "/d"),
        sess("q/bare", false, 0, ""),
    ])
}

fn key(key: Key) -> KeyPress {
    KeyPress { key, control: false }
}

fn typed(c: char) -> KeyPress {
    key(Key::Char(c))
}

fn control_c() -> KeyPress {
    KeyPress { key: Key::Char('c'), control: true }
}

fn click(column: u16, row: u16) -> MouseInput {
    MouseInput { kind: MouseKind::LeftDown, column, row }
}

fn scroll(kind: MouseKind) -> MouseInput {
    MouseInput { kind, column: 0, row: 0 }
}

/// A table at the top, with a line for each selectable row, and the action bar
/// in row 10.
fn map(app: &App) -> MouseMap {
    let mut map = MouseMap::default();
    let rows: Vec<Option<usize>> = (0..app.selectable.len()).map(Some).collect();
    map.note_table(Rect { x: 0, y: 0, width: 40, height: 9 }, 0, rows);
    map.note_bar(
        10,
        vec![
            Region { start: 2, end: 12, segment: Segment::Run(Action::Attach) },
            Region { start: 13, end: 23, segment: Segment::Run(Action::Rename) },
            Region { start: 24, end: 32, segment: Segment::Run(Action::Move) },
            Region { start: 33, end: 44, segment: Segment::Archive },
            Region { start: 45, end: 55, segment: Segment::Run(Action::Delete) },
        ],
    );
    map
}

#[test]
fn enter_attaches_or_creates() {
    let mut app = three();
    assert!(matches!(handle_key(&mut app, key(Key::Enter)), Outcome::Stay));
    assert!(matches!(&app.prompt, Prompt::NewSession { buffer } if buffer.is_empty()));
    app.cancel_prompt();
    app.cursor = 1;
    assert!(matches!(
        handle_key(&mut app, key(Key::Enter)),
        Outcome::Attach(SessionAction::Attach { name }) if name == "p/live"
    ));
    app.cursor = 2;
    assert!(matches!(
        handle_key(&mut app, key(Key::Enter)),
        Outcome::Attach(SessionAction::NewInDir { name, dir }) if name == "p/dir" && dir == "/d"
    ));
    app.cursor = 3;
    assert!(matches!(
        handle_key(&mut app, key(Key::Enter)),
        Outcome::Attach(SessionAction::New { name }) if name == "q/bare"
    ));
    assert!(!app.prompt.is_active());
}

#[test]
fn other_actions_open_a_prompt_and_reset() {
    let mut app = three();
    app.cursor = 1;
    app.action = Action::Rename;
    assert!(matches!(decide_action(&mut app), Outcome::Stay));
    assert!(matches!(&app.prompt, Prompt::Rename { old, buffer } if old == "p/live" && buffer == "p/live"));
    assert_eq!(app.action, Action::Attach);

    app.cancel_prompt();
    app.action = Action::Move;
    decide_action(&mut app);
    assert!(matches!(&app.prompt, Prompt::MoveTo { names, selected, .. } if names == &["p/live"] && *selected == 0));
    assert_eq!(app.action, Action::Attach);

    app.cancel_prompt();
    app.action = Action::Delete;
    decide_action(&mut app);
    assert!(matches!(&app.prompt, Prompt::ConfirmDelete { names } if names == &["p/live"]));
    assert_eq!(app.action, Action::Attach);
}

#[test]
fn bulk_actions_take_the_picked_sessions() {
    for action in [Action::Move, Action::Delete] {
        let mut app = three();
        app.toggle_pick_at(2);
        app.toggle_pick_at(3);
        app.action = action;
        decide_action(&mut app);
        let mut names = match &app.prompt {
            Prompt::MoveTo { names, .. } => names.clone(),
            Prompt::ConfirmDelete { names } => names.clone(),
            _ => panic!("expected a prompt"),
        };
        names.sort();
        assert_eq!(names, vec!["p/dir", "q/bare"]);
    }
}

#[test]
fn the_new_entry_takes_no_other_action() {
    for action in [Action::Rename, Action::Move, Action::Delete] {
        let mut app = three();
        app.action = action;
        assert!(matches!(decide_action(&mut app), Outcome::Stay));
        assert!(!app.prompt.is_active());
        assert_eq!(app.action, Action::Attach);
    }
}

#[test]
fn list_keys_move_pick_and_search() {
    let mut app = three();
    handle_key(&mut app, key(Key::Down));
    assert_eq!(app.cursor, 1);
    handle_key(&mut app, typed(' '));
    assert!(app.is_picked("p/live"));
    assert_eq!(app.cursor, 2);
    handle_key(&mut app, key(Key::Up));
    assert_eq!(app.cursor, 1);
    handle_key(&mut app, key(Key::Tab));
    assert_eq!(app.action, Action::Rename);
    handle_key(&mut app, key(Key::BackTab));
    handle_key(&mut app, key(Key::BackTab));
    assert_eq!(app.action, Action::Delete);
    handle_key(&mut app, typed('b'));
    handle_key(&mut app, typed('q'));
    assert_eq!(app.search, "bq");
    handle_key(&mut app, key(Key::Backspace));
    assert_eq!(app.search, "b");
    assert_eq!(app.current_name().as_deref(), Some("q/bare"));
    handle_key(&mut app, key(Key::Esc));
    assert_eq!(app.search, "");
    assert_eq!(app.picked.len(), 1);
    handle_key(&mut app, key(Key::Esc));
    assert!(app.picked.is_empty());
    handle_key(&mut app, key(Key::Esc));
    assert_eq!(app.action, Action::Attach);
    assert!(matches!(handle_key(&mut app, key(Key::Other)), Outcome::Stay));
}

#[test]
fn q_quits_only_without_a_search() {
    let mut app = three();
    assert!(matches!(handle_key(&mut app, typed('q')), Outcome::Quit));
    handle_key(&mut app, typed('b'));
    assert!(matches!(handle_key(&mut app, typed('q')), Outcome::Stay));
    assert_eq!(app.search, "bq");
    handle_key(&mut app, typed('c'));
    assert_eq!(app.search, "bqc");
    assert!(matches!(handle_key(&mut app, control_c()), Outcome::Quit));
    assert_eq!(app.search, "bqc");
}

#[test]
fn control_and_another_letter_is_typed() {
    let mut app = three();
    let press = KeyPress { key: Key::Char('a'), control: true };
    handle_key(&mut app, press);
    assert_eq!(app.search, "a");
}

#[test]
fn control_c_quits_in_every_prompt() {
    let mut app = three();
    app.open_new_session();
    assert!(matches!(handle_prompt_key(&mut app, control_c()), Outcome::Quit));
    app.open_rename("p/live".to_string());
    assert!(matches!(handle_prompt_key(&mut app, control_c()), Outcome::Quit));
    app.open_move(vec!["p/live".to_string()]);
    assert!(matches!(handle_prompt_key(&mut app, control_c()), Outcome::Quit));
    app.open_confirm_delete(vec!["p/live".to_string()]);
    assert!(matches!(handle_prompt_key(&mut app, control_c()), Outcome::Quit));
    assert!(app.prompt.is_active());
}

#[test]
fn the_question_takes_yes_and_no() {
    for yes in [typed('y'), typed('Y'), key(Key::Enter)] {
        let mut app = three();
        app.open_confirm_delete(vec!["a".to_string(), "b".to_string()]);
        assert!(matches!(
            handle_prompt_key(&mut app, yes),
            Outcome::ExecDelete { names } if names == ["a", "b"]
        ));
        assert!(app.prompt.is_active());
    }
    for no in [typed('n'), typed('N'), key(Key::Esc)] {
        let mut app = three();
        app.open_confirm_delete(vec!["a".to_string()]);
        assert!(matches!(handle_prompt_key(&mut app, no), Outcome::Stay));
        assert!(!app.prompt.is_active());
    }
    let mut app = three();
    app.open_confirm_delete(vec!["a".to_string()]);
    for other in [typed('x'), key(Key::Up), key(Key::Down), key(Key::Backspace), key(Key::Tab)] {
        assert!(matches!(handle_prompt_key(&mut app, other), Outcome::Stay));
        assert!(app.prompt.is_active());
    }
}

#[test]
fn inputs_are_typed_and_trimmed() {
    let mut app = three();
    app.open_rename("p/x".to_string());
    handle_prompt_key(&mut app, key(Key::Backspace));
    handle_prompt_key(&mut app, typed('y'));
    handle_prompt_key(&mut app, typed('n'));
    handle_prompt_key(&mut app, typed(' '));
    assert!(matches!(
        handle_prompt_key(&mut app, key(Key::Enter)),
        Outcome::ExecRename { old, new } if old == "p/x" && new == "p/yn"
    ));
    app.open_new_session();
    for c in " a/b ".chars() {
        handle_prompt_key(&mut app, typed(c));
    }
    assert!(matches!(
        handle_prompt_key(&mut app, key(Key::Enter)),
        Outcome::NewSessionNamed { name } if name == "a/b"
    ));
    assert!(!app.prompt.is_active());
    app.open_new_session();
    handle_prompt_key(&mut app, typed(' '));
    assert!(matches!(handle_prompt_key(&mut app, key(Key::Enter)), Outcome::Stay));
    assert!(!app.prompt.is_active());
    assert!(matches!(handle_prompt_key(&mut app, key(Key::Enter)), Outcome::Stay));
}

#[test]
fn the_choice_goes_round() {
    let mut app = three();
    app.open_move(vec!["p/live".to_string()]);
    handle_prompt_key(&mut app, key(Key::Down));
    handle_prompt_key(&mut app, typed('z'));
    assert!(matches!(
        handle_prompt_key(&mut app, key(Key::Enter)),
        Outcome::ExecMove { names, target } if names == ["p/live"] && target == "q"
    ));
    handle_prompt_key(&mut app, key(Key::Up));
    handle_prompt_key(&mut app, key(Key::Up));
    assert_eq!(app.move_selected_project().as_deref(), Some("other"));
    app.prompt = Prompt::MoveTo {
        names: vec!["p/live".to_string()],
        candidates: vec![],
        selected: 0,
    };
    assert!(matches!(handle_prompt_key(&mut app, key(Key::Enter)), Outcome::Stay));
    assert!(!app.prompt.is_active());
}

#[test]
fn the_wheel_moves_the_cursor() {
    let mut app = three();
    let map = map(&app);
    handle_mouse(&mut app, scroll(MouseKind::ScrollDown), &map);
    assert_eq!(app.cursor, 1);
    handle_mouse(&mut app, scroll(MouseKind::ScrollUp), &map);
    handle_mouse(&mut app, scroll(MouseKind::ScrollUp), &map);
    assert_eq!(app.cursor, 3);
    handle_mouse(&mut app, scroll(MouseKind::Other), &map);
    assert_eq!(app.cursor, 3);
}

#[test]
fn clicks_select_and_then_run() {
    let mut app = three();
    let map = map(&app);
    assert!(matches!(handle_mouse(&mut app, click(20, 3), &map), Outcome::Stay));
    assert_eq!(app.cursor, 1);
    assert!(matches!(
        handle_mouse(&mut app, click(20, 3), &map),
        Outcome::Attach(SessionAction::Attach { name }) if name == "p/live"
    ));
    assert!(matches!(handle_mouse(&mut app, click(20, 6), &map), Outcome::Stay));
    assert_eq!(app.cursor, 1);
    assert!(matches!(handle_mouse(&mut app, click(39, 4), &map), Outcome::Stay));
    assert_eq!(app.cursor, 1);
}

#[test]
fn clicks_on_markers_pick() {
    let mut app = three();
    let map = map(&app);
    handle_mouse(&mut app, click(1, 4), &map);
    handle_mouse(&mut app, click(5, 5), &map);
    handle_mouse(&mut app, click(5, 2), &map);
    let mut picked = app.picked_names();
    picked.sort();
    assert_eq!(picked, vec!["p/dir", "q/bare"]);
    assert_eq!(app.cursor, 0);
    handle_mouse(&mut app, click(3, 4), &map);
    assert_eq!(app.picked_names(), vec!["q/bare"]);
}

#[test]
fn clicks_on_the_archive_part_change_nothing() {
    let mut app = three();
    app.action = Action::Rename;
    app.toggle_pick_at(1);
    let mut map = map(&app);
    assert!(matches!(handle_mouse(&mut app, click(33, 10), &map), Outcome::Stay));
    assert!(matches!(handle_mouse(&mut app, click(43, 10), &map), Outcome::Stay));
    // The bar comes before a table in the same row.
    map.note_bar(3, vec![Region { start: 0, end: 30, segment: Segment::Unarchive }]);
    assert!(matches!(handle_mouse(&mut app, click(1, 3), &map), Outcome::Stay));
    assert!(matches!(handle_mouse(&mut app, click(20, 3), &map), Outcome::Stay));
    assert_eq!(app.action, Action::Rename);
    assert_eq!(app.cursor, 0);
    assert_eq!(app.picked_names(), vec!["p/live"]);
    assert!(!app.prompt.is_active());
}

#[test]
fn clicks_on_the_bar_switch_or_run() {
    let mut app = three();
    let map = map(&app);
    handle_mouse(&mut app, click(45, 10), &map);
    assert_eq!(app.action, Action::Delete);
    assert!(!app.prompt.is_active());
    app.toggle_pick_at(1);
    handle_mouse(&mut app, click(13, 10), &map);
    assert_eq!(app.action, Action::Rename);
    handle_mouse(&mut app, click(24, 10), &map);
    assert!(matches!(&app.prompt, Prompt::MoveTo { names, .. } if names == &["p/live"]));
    assert_eq!(app.action, Action::Attach);
    app.cancel_prompt();
    handle_mouse(&mut app, click(54, 10), &map);
    assert!(matches!(&app.prompt, Prompt::ConfirmDelete { names } if names == &["p/live"]));
    app.cancel_prompt();
    handle_mouse(&mut app, click(55, 10), &map);
    handle_mouse(&mut app, click(12, 10), &map);
    assert_eq!(app.action, Action::Attach);
    assert!(!app.prompt.is_active());
}

#[test]
fn an_open_prompt_gets_the_keys_and_hides_the_list_from_the_mouse() {
    let mut app = three();
    let map = map(&app);
    handle_input(&mut app, Input::Key(typed('b')), &map);
    assert_eq!(app.search, "b");
    app.open_new_session();
    handle_input(&mut app, Input::Key(typed('x')), &map);
    assert_eq!(app.search, "b");
    assert!(matches!(&app.prompt, Prompt::NewSession { buffer } if buffer == "x"));
    let cursor = app.cursor;
    assert!(matches!(handle_input(&mut app, Input::Mouse(click(20, 3)), &map), Outcome::Stay));
    assert_eq!(app.cursor, cursor);
    app.cancel_prompt();
    handle_input(&mut app, Input::Mouse(click(20, 3)), &map);
    assert_eq!(app.cursor, 1);
    assert!(matches!(handle_input(&mut app, Input::Other, &map), Outcome::Stay));
}
