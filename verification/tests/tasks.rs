use tmux_selector::app::{Action, App};
use tmux_selector::config::Config;
use tmux_selector::remote::Remote;
use tmux_selector::ssh::Session;
use tmux_selector::tasks::{
    begin_delete, exec_delete, exec_move, exec_rename, fetch_and_persist, note_new, refresh,
};

const TMUX: &str = "PATH=/usr/local/bin:/apollo/env/envImprovement/bin:$PATH tmux -u";

fn sess(name: &str, running: bool, dir: &str) -> Session {
    Session {
        name: name.to_string(),
        running,
        created: String::new(),
        activity: String::new(),
        activity_ts: 0,
        dir: dir.to_string(),
    }
}

fn remote() -> Remote {
    Remote::new("h".to_string(), false, None)
}

fn config() -> Config {
    Config::load_from(Some(r#"{"h": {"p/a": "/a", "p/b": "", "q/c": "/c"}}"#), "h")
}

fn app() -> App {
    App::new(vec![sess("p/a", true, "/live"), sess("p/b", false, ""), sess("q/c", true, "/c")])
}

fn list(names: &[&str]) -> Vec<String> {
    names.iter().map(|s| s.to_string()).collect()
}

fn entries(cfg: &Config) -> Vec<(String, String)> {
    cfg.entries()
}

fn pairs(list: &[(&str, &str)]) -> Vec<(String, String)> {
    list.iter().map(|(n, d)| (n.to_string(), d.to_string())).collect()
}

#[test]
fn fetched_sessions_are_written_back() {
    let mut cfg = config();
    let answer = "p/a|1|2\nz/new|3|4\n===\np/a|/moved\nz/new|/z\n";
    let sessions = fetch_and_persist(&remote(), &mut cfg, Some(answer));
    let names: Vec<&str> = sessions.iter().map(|s| s.name.as_str()).collect();
    assert_eq!(names, vec!["p/a", "p/b", "q/c", "z/new"]);
    assert_eq!(
        entries(&cfg),
        pairs(&[("p/a", "/moved"), ("p/b", ""), ("q/c", "/c"), ("z/new", "/z")])
    );
}

#[test]
fn a_failed_fetch_changes_nothing() {
    let mut cfg = config();
    let before = cfg.save();
    let sessions = fetch_and_persist(&remote(), &mut cfg, None);
    assert_eq!(sessions.len(), 3);
    assert!(sessions.iter().all(|s| !s.running));
    assert_eq!(cfg.save(), before);
}

#[test]
fn a_refresh_starts_over() {
    let mut app = app();
    app.push_search('c');
    app.action = Action::Delete;
    app.toggle_pick_at(1);
    app.cursor = 3;
    refresh(&mut app, vec![sess("p/a", true, "")]);
    assert_eq!(app.search, "");
    assert_eq!(app.action, Action::Attach);
    assert_eq!(app.cursor, 1);
    assert_eq!(app.picked.len(), 1);
    assert_eq!(app.rows.len(), 3);
}

#[test]
fn deleting_says_how_many() {
    let mut app = app();
    app.open_confirm_delete(list(&["p/a", "p/b"]));
    begin_delete(&mut app, &list(&["p/a", "p/b"]));
    assert_eq!(app.status.as_deref(), Some("Deleting 2…"));
    assert!(!app.prompt.is_active());
    begin_delete(&mut app, &list(&["a"; 10]));
    assert_eq!(app.status.as_deref(), Some("Deleting 10…"));
}

#[test]
fn deleting_ends_what_runs_and_forgets_all() {
    let mut app = app();
    let mut cfg = config();
    app.toggle_pick_at(1);
    app.open_confirm_delete(list(&["p/a", "p/b", "none"]));
    let command = exec_delete(&mut app, &remote(), &mut cfg, &list(&["p/a", "p/b", "none"]));
    assert_eq!(command.unwrap(), format!("{TMUX} kill-session -t 'p/a' 2>/dev/null;"));
    assert_eq!(entries(&cfg), pairs(&[("q/c", "/c")]));
    assert!(app.picked.is_empty());
    assert!(!app.prompt.is_active());
    assert_eq!(app.status, None);
    let nothing = exec_delete(&mut app, &remote(), &mut cfg, &list(&["p/b"]));
    assert_eq!(nothing, None);
}

#[test]
fn renaming_keeps_the_directory() {
    let mut app = app();
    let mut cfg = config();
    app.open_rename("p/a".to_string());
    let commands = exec_rename(&mut app, &remote(), &mut cfg, "p/a", "p/x").unwrap();
    assert_eq!(commands, vec![format!("{TMUX} rename-session -t 'p/a' 'p/x'")]);
    assert_eq!(entries(&cfg), pairs(&[("p/b", ""), ("q/c", "/c"), ("p/x", "/live")]));
    assert!(!app.prompt.is_active());
    let none = exec_rename(&mut app, &remote(), &mut cfg, "p/b", "p/y").unwrap();
    assert!(none.is_empty());
    assert_eq!(entries(&cfg), pairs(&[("q/c", "/c"), ("p/x", "/live"), ("p/y", "")]));
}

#[test]
fn renaming_to_nothing_or_the_same_does_nothing() {
    let mut app = app();
    let mut cfg = config();
    let before = cfg.save();
    app.open_rename("p/a".to_string());
    assert!(exec_rename(&mut app, &remote(), &mut cfg, "p/a", "").is_none());
    assert!(!app.prompt.is_active());
    assert!(exec_rename(&mut app, &remote(), &mut cfg, "p/a", "p/a").is_none());
    assert_eq!(exec_rename(&mut app, &remote(), &mut cfg, "gone", "here"), Some(vec![]));
    assert_eq!(cfg.save(), before);
}

#[test]
fn moving_renames_each_session() {
    let mut app = app();
    let mut cfg = config();
    app.toggle_pick_at(1);
    app.toggle_pick_at(3);
    app.open_move(list(&["p/a", "q/c", "p/b", "gone"]));
    let names = list(&["p/a", "q/c", "p/b", "gone"]);
    let commands = exec_move(&mut app, &remote(), &mut cfg, &names, "q").unwrap();
    assert_eq!(commands, vec![format!("{TMUX} rename-session -t 'p/a' 'q/a'")]);
    assert_eq!(entries(&cfg), pairs(&[("q/c", "/c"), ("q/a", "/live"), ("q/b", "")]));
    assert!(app.picked.is_empty());
    assert!(!app.prompt.is_active());
}

#[test]
fn moving_out_of_a_project() {
    let mut app = app();
    let mut cfg = config();
    let commands = exec_move(&mut app, &remote(), &mut cfg, &list(&["q/c"]), "other").unwrap();
    assert_eq!(commands, vec![format!("{TMUX} rename-session -t 'q/c' 'c'")]);
    assert_eq!(entries(&cfg), pairs(&[("p/a", "/a"), ("p/b", ""), ("c", "/c")]));
}

#[test]
fn moving_to_a_blank_project_does_nothing() {
    let mut app = app();
    let mut cfg = config();
    let before = cfg.save();
    app.toggle_pick_at(1);
    app.open_move(list(&["p/a"]));
    assert!(exec_move(&mut app, &remote(), &mut cfg, &list(&["p/a"]), " \t").is_none());
    assert_eq!(cfg.save(), before);
    assert_eq!(app.picked.len(), 1);
    assert!(!app.prompt.is_active());
}

#[test]
fn new_sessions_are_noted() {
    let mut cfg = config();
    note_new(&mut cfg, "n/ew");
    note_new(&mut cfg, "p/a");
    assert_eq!(
        entries(&cfg),
        pairs(&[("p/a", "/a"), ("p/b", ""), ("q/c", "/c"), ("n/ew", "")])
    );
}

#[test]
fn what_renames_nothing_needs_no_configuration() {
    let text = r#"{"h": "no object"}"#;
    let mut cfg = Config::load_from(Some(text), "h");
    let before = cfg.save();
    assert!(!cfg.is_writable());
    let mut app = app();
    assert_eq!(exec_rename(&mut app, &remote(), &mut cfg, "gone", "here"), Some(vec![]));
    assert_eq!(exec_rename(&mut app, &remote(), &mut cfg, "p/a", "p/a"), None);
    assert_eq!(exec_move(&mut app, &remote(), &mut cfg, &list(&["p/a", "gone"]), "p"), Some(vec![]));
    assert_eq!(cfg.save(), before);
}
