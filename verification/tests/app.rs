use tmux_selector::app::{Action, App, Prompt, Row};
use tmux_selector::moving::{moved_name, session_suffix};
use tmux_selector::ssh::Session;

fn sess(name: &str, running: bool, activity_ts: i64) -> Session {
    Session {
        name: name.to_string(),
        running,
        created: String::new(),
        activity: String::new(),
        activity_ts,
        dir: String::new(),
    }
}

fn headers(app: &App) -> Vec<String> {
    app.rows
        .iter()
        .filter_map(|r| match r {
            Row::Header(h) => Some(h.clone()),
            _ => None,
        })
        .collect()
}

fn session_names(app: &App) -> Vec<String> {
    app.rows
        .iter()
        .filter_map(|r| match r {
            Row::Session(i) => Some(app.sessions[*i].name.clone()),
            _ => None,
        })
        .collect()
}

#[test]
fn fuzzy_subsequence() {
    assert!(App::fuzzy("replay/mainline", "rml"));
    assert!(App::fuzzy("replay/mainline", "MAIN"));
    assert!(!App::fuzzy("replay/mainline", "xyz"));
    assert!(App::fuzzy("anything", ""));
}

#[test]
fn move_picker_cycles_and_starts_on_current_project() {
    let app_sessions = vec![
        sess("alpha/x", true, 3),
        sess("beta/y", true, 2),
        sess("gamma/z", true, 1),
    ];
    let mut app = App::new(app_sessions);
    app.open_move(vec!["beta/y".to_string()]);
    if let Prompt::MoveTo { candidates, .. } = &app.prompt {
        assert_eq!(candidates, &["alpha", "beta", "gamma", "other"]);
    } else {
        panic!("expected MoveTo prompt");
    }
    assert_eq!(app.move_selected_project().as_deref(), Some("beta"));

    app.move_next();
    assert_eq!(app.move_selected_project().as_deref(), Some("gamma"));
    app.move_next();
    assert_eq!(app.move_selected_project().as_deref(), Some("other"));
    app.move_next();
    assert_eq!(app.move_selected_project().as_deref(), Some("alpha"));

    app.move_prev();
    assert_eq!(app.move_selected_project().as_deref(), Some("other"));
}

#[test]
fn move_selected_project_none_when_not_moving() {
    let app = App::new(vec![sess("alpha/x", true, 1)]);
    assert_eq!(app.move_selected_project(), None);
}

#[test]
fn moved_name_preserves_suffix() {
    assert_eq!(moved_name("alpha/foo", "beta"), "beta/foo");
    assert_eq!(moved_name("loose", "beta"), "beta/loose");
    assert_eq!(moved_name("alpha/foo", "other"), "foo");
    assert_eq!(moved_name("alpha/foo", ""), "foo");
    assert_eq!(moved_name("alpha/foo", "  beta/  "), "beta/foo");
}

#[test]
fn session_suffix_extracts_tail() {
    assert_eq!(session_suffix("alpha/foo"), "foo");
    assert_eq!(session_suffix("loose"), "loose");
}

#[test]
fn project_names_are_distinct_sorted_no_other() {
    let app = App::new(vec![
        sess("beta/x", true, 1),
        sess("alpha/y", true, 1),
        sess("beta/z", true, 1),
        sess("loose", true, 1),
    ]);
    assert_eq!(app.project_names(), vec!["alpha", "beta"]);
}

#[test]
fn grouping_ties_break_alphabetically_other_last() {
    let app = App::new(vec![
        sess("zeta/a", true, 1),
        sess("alpha/b", true, 1),
        sess("standalone", true, 1),
    ]);
    assert_eq!(headers(&app), vec!["alpha", "zeta", "other"]);
}

#[test]
fn projects_ordered_by_most_recent_session() {
    let app = App::new(vec![
        sess("alpha/a1", true, 200),
        sess("alpha/a2", true, 100),
        sess("beta/b1", true, 999),
        sess("gamma/g1", true, 50),
        sess("solo", true, 500),
    ]);
    assert_eq!(headers(&app), vec!["beta", "alpha", "gamma", "other"]);
}

#[test]
fn sessions_within_group_sorted_by_activity_desc() {
    let app = App::new(vec![
        sess("p/old", true, 100),
        sess("p/new", true, 500),
        sess("p/mid", true, 300),
    ]);
    assert_eq!(session_names(&app), vec!["p/new", "p/mid", "p/old"]);
}

#[test]
fn nav_wraps_and_skips_headers() {
    let mut app = App::new(vec![sess("p/a", true, 1), sess("q/b", true, 1)]);
    assert_eq!(app.selectable.len(), 3);
    assert_eq!(app.cursor, 0);
    app.nav_up();
    assert_eq!(app.cursor, 2);
    app.nav_down();
    assert_eq!(app.cursor, 0);
}

#[test]
fn escape_is_staged() {
    let mut app = App::new(vec![sess("p/a", true, 1)]);
    app.search = "a".into();
    app.picked.insert("p/a".into());
    app.action = Action::Delete;

    assert!(app.escape());
    assert!(app.search.is_empty());
    assert_eq!(app.picked.len(), 1);

    assert!(app.escape());
    assert!(app.picked.is_empty());
    assert_eq!(app.action, Action::Delete);

    assert!(app.escape());
    assert_eq!(app.action, Action::Attach);

    assert!(!app.escape());
}

#[test]
fn toggle_pick_by_name() {
    let mut app = App::new(vec![sess("p/a", true, 1)]);
    app.cursor = 1;
    app.toggle_pick();
    assert!(app.is_picked("p/a"));
    app.toggle_pick();
    assert!(!app.is_picked("p/a"));
}

#[test]
fn toggle_pick_at_by_index() {
    let mut app = App::new(vec![sess("p/a", true, 1), sess("p/b", true, 1)]);
    app.toggle_pick_at(0);
    assert!(app.picked.is_empty());
    app.toggle_pick_at(1);
    assert!(app.is_picked("p/a"));
    app.toggle_pick_at(1);
    assert!(!app.is_picked("p/a"));
    app.toggle_pick_at(99);
    assert!(app.picked.is_empty());
}

#[test]
fn search_hides_new_row() {
    let mut app = App::new(vec![sess("p/a", true, 1)]);
    app.push_search('a');
    assert!(!app.matches(0));
    assert!(app.matches(1));
}

#[test]
fn an_empty_list_has_only_the_new_entry() {
    let app = App::new(vec![]);
    assert_eq!(app.rows.len(), 1);
    assert!(matches!(app.rows[0], Row::New));
    assert_eq!(app.selectable, vec![0]);
    assert!(app.on_new());
    assert!(app.current_session().is_none());
    assert_eq!(app.current_name(), None);
    assert_eq!(app.current_dir(), None);
    assert!(!app.current_running());
}

#[test]
fn rows_stand_under_their_headers() {
    let app = App::new(vec![
        sess("a/1", true, 5),
        sess("loose", true, 90),
        sess("b/1", true, 7),
        sess("a/2", true, 6),
    ]);
    let shown: Vec<String> = app
        .rows
        .iter()
        .map(|r| match r {
            Row::New => "+".to_string(),
            Row::Header(h) => format!("[{h}]"),
            Row::Session(i) => app.sessions[*i].name.clone(),
        })
        .collect();
    assert_eq!(shown, vec!["+", "[b]", "b/1", "[a]", "a/2", "a/1", "[other]", "loose"]);
    assert_eq!(app.selectable, vec![0, 2, 4, 5, 7]);
}

#[test]
fn sessions_used_at_the_same_time_keep_their_order() {
    let app = App::new(vec![sess("p/b", true, 4), sess("p/a", true, 4), sess("p/c", true, 4)]);
    assert_eq!(session_names(&app), vec!["p/b", "p/a", "p/c"]);
}

#[test]
fn a_project_called_other_joins_the_rest() {
    let app = App::new(vec![sess("other/x", true, 9), sess("y", true, 3), sess("p/z", true, 1)]);
    assert_eq!(headers(&app), vec!["p", "other"]);
    assert_eq!(session_names(&app), vec!["p/z", "other/x", "y"]);
    assert_eq!(app.project_names(), vec!["p"]);
}

#[test]
fn negative_activity_still_orders() {
    let app = App::new(vec![sess("a/x", true, -5), sess("b/y", true, -3)]);
    assert_eq!(headers(&app), vec!["b", "a"]);
}

#[test]
fn a_shorter_list_takes_the_cursor_to_its_end() {
    let mut app = App::new(vec![sess("p/a", true, 1), sess("p/b", true, 2)]);
    app.cursor = 2;
    app.set_sessions(vec![sess("p/a", true, 1)]);
    assert_eq!(app.cursor, 1);
    app.set_sessions(vec![]);
    assert_eq!(app.cursor, 0);
}

#[test]
fn a_search_leaves_matching_rows_and_their_headers() {
    let mut app = App::new(vec![
        sess("alpha/one", true, 3),
        sess("alpha/two", true, 2),
        sess("beta/three", true, 1),
    ]);
    assert!(app.row_visible(0));
    app.push_search('t');
    app.push_search('w');
    let visible: Vec<bool> = (0..app.rows.len()).map(|ri| app.row_visible(ri)).collect();
    assert_eq!(visible, vec![false, true, false, true, false, false]);
    assert_eq!(app.current_name().as_deref(), Some("alpha/two"));
    assert_eq!(app.group_visible_count(1), 1);
    assert_eq!(app.group_visible_count(4), 0);
    assert!(app.is_last_visible_in_group(3));
    app.backspace_search();
    assert_eq!(app.search, "t");
    assert_eq!(app.group_visible_count(1), 1);
    assert_eq!(app.group_visible_count(4), 1);
    app.backspace_search();
    assert_eq!(app.cursor, 0);
    app.backspace_search();
    assert_eq!(app.search, "");
    assert_eq!(app.group_visible_count(1), 2);
    assert!(!app.is_last_visible_in_group(2));
}

#[test]
fn moving_skips_what_the_search_hides() {
    let mut app = App::new(vec![
        sess("p/ax", true, 4),
        sess("p/b", true, 3),
        sess("p/cx", true, 2),
        sess("p/d", true, 1),
    ]);
    app.push_search('x');
    assert_eq!(app.cursor, 1);
    app.nav_down();
    assert_eq!(app.cursor, 3);
    app.nav_down();
    assert_eq!(app.cursor, 1);
    app.nav_up();
    assert_eq!(app.cursor, 3);
    app.nav_up();
    assert_eq!(app.cursor, 1);
}

#[test]
fn without_a_match_the_cursor_stays() {
    let mut app = App::new(vec![sess("p/a", true, 2), sess("p/b", true, 1)]);
    app.cursor = 2;
    app.push_search('z');
    assert_eq!(app.cursor, 2);
    app.nav_down();
    assert_eq!(app.cursor, 2);
    app.nav_up();
    assert_eq!(app.cursor, 2);
}

#[test]
fn actions_cycle_both_ways() {
    let mut action = Action::Attach;
    let mut seen = Vec::new();
    for _ in 0..4 {
        seen.push(action.label());
        assert_eq!(action.next().prev(), action);
        assert_eq!(action.prev().next(), action);
        action = action.next();
    }
    assert_eq!(action, Action::Attach);
    assert_eq!(seen, vec!["attach", "rename", "move", "delete"]);
}

#[test]
fn prompts_open_and_close() {
    let mut app = App::new(vec![sess("p/a", true, 1)]);
    assert!(!app.prompt.is_active());
    app.open_new_session();
    app.prompt_push('x');
    app.prompt_push('é');
    app.prompt_backspace();
    assert!(matches!(&app.prompt, Prompt::NewSession { buffer } if buffer == "x"));
    app.open_rename("p/a".to_string());
    app.prompt_push('b');
    assert!(matches!(&app.prompt, Prompt::Rename { old, buffer } if old == "p/a" && buffer == "p/ab"));
    app.prompt_backspace();
    app.prompt_backspace();
    assert!(matches!(&app.prompt, Prompt::Rename { buffer, .. } if buffer == "p/"));
    app.open_confirm_delete(vec!["p/a".to_string()]);
    app.prompt_push('q');
    app.prompt_backspace();
    app.move_next();
    app.move_prev();
    assert!(matches!(&app.prompt, Prompt::ConfirmDelete { names } if names == &["p/a"]));
    assert!(app.prompt.is_active());
    app.cancel_prompt();
    assert!(!app.prompt.is_active());
    app.prompt_backspace();
    assert!(!app.prompt.is_active());
}

#[test]
fn the_choice_of_a_project_for_a_loose_session_starts_on_other() {
    let mut app = App::new(vec![sess("a/x", true, 1), sess("loose", true, 1)]);
    app.open_move(vec!["loose".to_string(), "a/x".to_string()]);
    assert_eq!(app.move_selected_project().as_deref(), Some("other"));
    app.open_move(vec!["gone/x".to_string()]);
    assert_eq!(app.move_selected_project().as_deref(), Some("a"));
    app.open_move(vec![]);
    assert_eq!(app.move_selected_project().as_deref(), Some("other"));
}

#[test]
fn picks_are_listed_once_each() {
    let mut app = App::new(vec![sess("p/a", true, 1), sess("p/b", true, 1)]);
    app.toggle_pick_at(2);
    app.toggle_pick_at(1);
    let mut picked = app.picked_names();
    picked.sort();
    assert_eq!(picked, vec!["p/a", "p/b"]);
    app.clear_picked();
    assert!(app.picked_names().is_empty());
}

#[test]
fn moving_in_and_out_of_projects() {
    assert_eq!(session_suffix("a/b/c"), "b/c");
    assert_eq!(moved_name("a/b/c", "d"), "d/b/c");
    assert_eq!(moved_name("a/b", " //x// "), "x/b");
    assert_eq!(moved_name("alpha/foo", "/ beta /"), "beta/foo");
    assert_eq!(moved_name("a/b", "/ / x y/\u{2003}/ "), "x y/b");
    assert_eq!(moved_name("a/b", " / / "), "b");
    assert_eq!(moved_name("a/b", "/ other /"), "b");
    assert_eq!(moved_name("a/b", "x/y"), "x/y/b");
    assert_eq!(moved_name("a/b", "/"), "b");
    assert_eq!(moved_name("a/b", "\u{3000}x\u{a0}"), "x/b");
    assert_eq!(moved_name("a/b", "\u{200b}x"), "\u{200b}x/b");
    assert_eq!(moved_name(&moved_name("a/b", "x"), "y"), moved_name("a/b", "y"));
    assert_eq!(moved_name("a/b", "a"), "a/b");
    assert_eq!(moved_name("b", "other"), "b");
    assert_eq!(moved_name("a/b", " other "), "b");
}

#[test]
fn searching_beyond_ascii() {
    assert!(App::fuzzy("Ärger/Über", "äü"));
    assert!(App::fuzzy("straße", "STRASSE") == false);
    assert!(App::fuzzy("ὈΔΥΣΣΕΎΣ", "ὀδυσσεύς"));
    assert!(!App::fuzzy("ab", "abc"));
    assert!(!App::fuzzy("", "a"));
    assert!(App::fuzzy("aXbYc", "ABC"));
    assert!(!App::fuzzy("acb", "abc"));
}

#[test]
fn typing_only_hides_rows() {
    let mut app = App::new(vec![
        sess("alpha/one", true, 3),
        sess("alpha/tone", true, 2),
        sess("beta/One", true, 1),
    ]);
    let mut before: Vec<bool> = vec![true; app.rows.len()];
    for c in "one!".chars() {
        app.push_search(c);
        let now: Vec<bool> = (0..app.rows.len()).map(|ri| app.row_visible(ri)).collect();
        assert!(now.iter().zip(&before).all(|(n, b)| !n || *b));
        before = now;
    }
    assert!(before.iter().all(|b| !b));
}

#[test]
fn headers_count_what_is_visible() {
    let mut app = App::new(vec![
        sess("alpha/one", true, 3),
        sess("beta/two", true, 9),
        sess("alpha/toe", true, 2),
        sess("loose", true, 1),
        sess("other/one", false, 0),
    ]);
    for typed in ["", "o", "n", "e", "!"] {
        for c in typed.chars() {
            app.push_search(c);
        }
        let mut sum = 0;
        for (ri, row) in app.rows.iter().enumerate() {
            if let Row::Header(h) = row {
                let matching = app
                    .sessions
                    .iter()
                    .filter(|s| match s.name.split_once('/') {
                        Some((p, _)) => p == h,
                        None => h == "other",
                    })
                    .filter(|s| App::fuzzy(&s.name, &app.search))
                    .count();
                assert_eq!(app.group_visible_count(ri), matching);
                assert_eq!(app.row_visible(ri), matching > 0);
                sum += matching;
            }
        }
        let visible = app
            .rows
            .iter()
            .enumerate()
            .filter(|(ri, row)| matches!(row, Row::Session(_)) && app.row_visible(*ri))
            .count();
        assert_eq!(sum, visible);
    }
    assert_eq!(app.search, "one!");
}
