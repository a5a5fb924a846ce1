use chrono::TimeZone;
use tmux_selector::lines::split_lines;
use tmux_selector::numbers::{count_text, read_signed};
use tmux_selector::options::read_options;
use tmux_selector::probe::{merge_sessions, parse_and_merge, read_answer, LiveSession};
use tmux_selector::quote::sh_quote;
use tmux_selector::remote::{Launch, Remote};
use tmux_selector::ssh::{default_socket_path, Candidate, CmuxEnv, CmuxIds, SessionAction};
use tmux_selector::text::{sorts_before, strip_ends};
use tmux_selector::stamp::{fmt_ts, stamp_text, FIRST_SECOND, LAST_SECOND};

fn ids() -> CmuxIds {
    CmuxIds {
        workspace_id: "w1".to_string(),
        tab_id: "t2".to_string(),
        panel_id: "p3".to_string(),
        surface_id: "s4".to_string(),
    }
}

fn candidate(path: &str, is_socket: bool) -> Candidate {
    Candidate { path: path.to_string(), is_socket }
}

fn sidebar() -> CmuxEnv {
    CmuxEnv::detect(Some(candidate("/run/c.sock", true)), candidate("/home/u/d", false), ids())
        .unwrap()
}

fn ssh_args(launch: Launch) -> Vec<String> {
    match launch {
        Launch::Ssh { args } => args,
        Launch::Mosh { .. } => panic!("expected ssh"),
    }
}

#[test]
fn sh_quote_plain() {
    assert_eq!(sh_quote("replay/mainline"), "'replay/mainline'");
}

#[test]
fn sh_quote_embedded_single_quote() {
    assert_eq!(sh_quote("it's"), "'it'\\''s'");
}

#[test]
fn tmux_cmd_attach_quotes_slash_names() {
    let a = SessionAction::Attach { name: "replay/mainline".into() };
    assert_eq!(a.tmux_cmd("tmux"), "tmux attach -t 'replay/mainline'".to_string());
}

#[test]
fn tmux_cmd_new_in_dir() {
    let a = SessionAction::NewInDir { name: "proj/x".into(), dir: "/home/u/work".into() };
    assert_eq!(
        a.tmux_cmd("tmux"),
        r#"tmux new -s 'proj/x' 'cd '\''/home/u/work'\'' && exec $SHELL'"#
    );
}

#[test]
fn parse_merges_config_order_with_live_state() {
    let raw = "\
proj/a|1700000000|1700000100\n\
extra/z|1700000200|1700000300\n\
===\n\
proj/a|/home/u/a\n\
extra/z|/home/u/z\n";
    let cfg = vec![
        ("proj/a".to_string(), "/cfg/a".to_string()),
        ("proj/b".to_string(), "/cfg/b".to_string()),
    ];
    let sessions = parse_and_merge(raw, &cfg);

    assert_eq!(sessions.len(), 3);
    assert_eq!(sessions[0].name, "proj/a");
    assert!(sessions[0].running);
    assert_eq!(sessions[0].dir, "/home/u/a");

    assert_eq!(sessions[1].name, "proj/b");
    assert!(!sessions[1].running);
    assert_eq!(sessions[1].dir, "/cfg/b");

    assert_eq!(sessions[2].name, "extra/z");
    assert!(sessions[2].running);
}

#[test]
fn parse_handles_empty() {
    let sessions = parse_and_merge("===\n", &[]);
    assert!(sessions.is_empty());
}

#[test]
fn answers_are_read_line_by_line() {
    let raw = "a|1|2\r\n\nbroken\nonly|two\nb|x|+7|8\nc|-3|9223372036854775807\n===\na|/x|y\n\nnone\nb|\n===\nc|/late";
    let answer = read_answer(raw);
    let live: Vec<(String, i64, i64)> =
        answer.live.into_iter().map(|l| (l.name, l.created_ts, l.activity_ts)).collect();
    assert_eq!(
        live,
        vec![
            ("a".to_string(), 1, 2),
            ("b".to_string(), 0, 0),
            ("c".to_string(), -3, i64::MAX),
        ]
    );
    assert_eq!(
        answer.dirs,
        vec![
            ("a".to_string(), "/x|y".to_string()),
            ("b".to_string(), String::new()),
            ("c".to_string(), "/late".to_string()),
        ]
    );
}

#[test]
fn numbers_are_read_as_the_host_writes_them() {
    let stamps = |field: &str| read_answer(&format!("n|{field}|0")).live[0].created_ts;
    assert_eq!(stamps("12"), 12);
    assert_eq!(stamps("+12"), 12);
    assert_eq!(stamps("-12"), -12);
    assert_eq!(stamps("007"), 7);
    assert_eq!(stamps(""), 0);
    assert_eq!(stamps("-"), 0);
    assert_eq!(stamps(" 1"), 0);
    assert_eq!(stamps("1.5"), 0);
    assert_eq!(stamps("9223372036854775807"), i64::MAX);
    assert_eq!(stamps("9223372036854775808"), 0);
    assert_eq!(stamps("-9223372036854775808"), i64::MIN);
    assert_eq!(stamps("-9223372036854775809"), 0);
}

#[test]
fn merging_goes_by_the_last_word() {
    let live = |name: &str, activity: &str, ts: i64| LiveSession {
        name: name.to_string(),
        created: "made".to_string(),
        activity: activity.to_string(),
        activity_ts: ts,
    };
    let dirs = vec![
        ("z".to_string(), "/old".to_string()),
        ("z".to_string(), "/new".to_string()),
    ];
    let cfg = vec![
        ("m".to_string(), "/m".to_string()),
        ("z".to_string(), "/cfg".to_string()),
    ];
    let list = vec![live("z", "first", 1), live("b", "b", 2), live("z", "last", 3), live("a", "a", 4)];
    let sessions = merge_sessions(&list, &dirs, &cfg);
    let names: Vec<&str> = sessions.iter().map(|s| s.name.as_str()).collect();
    assert_eq!(names, vec!["m", "z", "a", "b"]);
    assert_eq!(sessions[0].created, "");
    assert_eq!(sessions[0].activity_ts, 0);
    assert_eq!(sessions[0].dir, "/m");
    assert_eq!(sessions[1].activity, "last");
    assert_eq!(sessions[1].activity_ts, 3);
    assert_eq!(sessions[1].dir, "/new");
    assert_eq!(sessions[3].dir, "");
    let running: Vec<bool> = sessions.iter().map(|s| s.running).collect();
    assert_eq!(running, vec![false, true, true, true]);
}

#[test]
fn times_are_shown_in_the_local_zone() {
    assert_eq!(fmt_ts(0), "");
    for ts in [1i64, 1_700_000_000, -86_400, FIRST_SECOND, LAST_SECOND] {
        let expected =
            chrono::Local.timestamp_opt(ts, 0).single().unwrap().format("%b %d %H:%M").to_string();
        assert_eq!(fmt_ts(ts), expected);
        assert_eq!(expected.len(), 12);
    }
    assert_eq!(fmt_ts(FIRST_SECOND - 1), "");
    assert_eq!(fmt_ts(LAST_SECOND + 1), "");
    assert_eq!(fmt_ts(i64::MIN), "");
    assert_eq!(fmt_ts(i64::MAX), "");
    assert_eq!(stamp_text(None), "");
    assert_eq!(stamp_text(Some("Nov 14 22:13".to_string())), "Nov 14 22:13");
}

#[test]
fn times_are_those_of_a_shifted_universal_clock() {
    for k in -300i64..300 {
        let ts = k * 7_654_321_987 + 86_399;
        let local = chrono::Local.timestamp_opt(ts, 0).single().unwrap();
        let offset = i64::from(chrono::Offset::fix(local.offset()).local_minus_utc());
        assert!(-86_400 < offset && offset < 86_400);
        let shifted = chrono::Utc.timestamp_opt(ts + offset, 0).single().unwrap();
        assert_eq!(fmt_ts(ts), shifted.format("%b %d %H:%M").to_string());
    }
}

#[test]
fn merged_sessions_show_their_times() {
    let sessions = parse_and_merge("a|1700000000|0\n", &[]);
    assert_eq!(sessions[0].created, fmt_ts(1_700_000_000));
    assert_eq!(sessions[0].activity, "");
    let both = parse_and_merge("a|1600000000|1700000000\n", &[]);
    assert_eq!(both[0].created, fmt_ts(1_600_000_000));
    assert_eq!(both[0].activity, fmt_ts(1_700_000_000));
    assert!(both[0].created != both[0].activity);
}

#[test]
fn the_sidebar_is_found_at_a_socket() {
    assert_eq!(
        default_socket_path(Some("/Users/u")),
        "/Users/u/Library/Application Support/cmux/cmux.sock"
    );
    assert_eq!(default_socket_path(None), "");
    let named = CmuxEnv::detect(Some(candidate("/n", true)), candidate("/d", true), ids()).unwrap();
    assert_eq!(named.local_sock, "/n");
    assert_eq!(named.remote_sock, "/tmp/cmux.sock");
    assert_eq!(named.workspace_id, "w1");
    let fallback = CmuxEnv::detect(Some(candidate("/n", false)), candidate("/d", true), ids());
    assert_eq!(fallback.unwrap().local_sock, "/d");
    assert_eq!(CmuxEnv::detect(None, candidate("/d", true), ids()).unwrap().local_sock, "/d");
    assert!(CmuxEnv::detect(Some(candidate("/n", false)), candidate("/d", false), ids()).is_none());
    assert!(CmuxEnv::detect(None, candidate("/d", false), ids()).is_none());
}

#[test]
fn the_sidebar_variables_are_set() {
    let c = sidebar();
    assert_eq!(
        c.export_prefix(),
        "export CMUX_SOCKET_PATH=/tmp/cmux.sock CMUX_WORKSPACE_ID=w1 CMUX_TAB_ID=t2 CMUX_PANEL_ID=p3 CMUX_SURFACE_ID=s4;"
    );
    assert_eq!(
        c.tmux_env("T"),
        "T set-environment -g CMUX_SOCKET_PATH '/tmp/cmux.sock' 2>/dev/null;T set-option -g update-environment 'CMUX_SOCKET_PATH CMUX_WORKSPACE_ID CMUX_TAB_ID CMUX_PANEL_ID CMUX_SURFACE_ID' 2>/dev/null;"
    );
    assert_eq!(
        c.session_env("a'b"),
        "~/.cmux-kiro/set-env.sh 'a'\\''b' CMUX_SOCKET_PATH '/tmp/cmux.sock' CMUX_WORKSPACE_ID 'w1' CMUX_TAB_ID 't2' CMUX_PANEL_ID 'p3' CMUX_SURFACE_ID 's4';"
    );
}

#[test]
fn commands_name_the_host_and_the_session() {
    let remote = Remote::new("box.example.org".to_string(), false, None);
    let tmux = "PATH=/usr/local/bin:/apollo/env/envImprovement/bin:$PATH tmux -u";
    assert_eq!(remote.short_host(), "box");
    assert_eq!(remote.kill_session("a b"), format!("{tmux} kill-session -t 'a b'"));
    assert_eq!(remote.kill_sessions(&[]), None);
    assert_eq!(
        remote.kill_sessions(&["a".to_string(), "b".to_string()]).unwrap(),
        format!("{tmux} kill-session -t 'a' 2>/dev/null;{tmux} kill-session -t 'b' 2>/dev/null;")
    );
    assert_eq!(remote.rename_session("a", "b"), format!("{tmux} rename-session -t 'a' 'b'"));
    assert_eq!(
        remote.fetch_command(),
        format!("rm -f /tmp/cmux.sock 2>/dev/null\n{tmux} ls -F '#{{session_name}}|#{{session_created}}|#{{session_activity}}' 2>/dev/null\necho '==='\n{tmux} ls -F '#{{session_name}}|#{{pane_current_path}}' 2>/dev/null")
    );
    assert_eq!(
        remote.ssh_capture("ls"),
        vec![
            "-o",
            "ServerAliveInterval=5",
            "-o",
            "ServerAliveCountMax=3",
            "-o",
            "LogLevel=ERROR",
            "box.example.org",
            "ls",
        ]
    );
    assert_eq!(remote.deploy_helper(), None);
    assert!(remote.cmux_ssh_extra().is_empty());
    assert_eq!(Remote::new("plain".to_string(), false, None).short_host(), "plain");
    assert_eq!(Remote::new(".x".to_string(), false, None).short_host(), "");
}

#[test]
fn the_helper_is_a_script() {
    let remote = Remote::new("h".to_string(), false, Some(sidebar()));
    let script = remote.deploy_helper().unwrap();
    assert_eq!(
        script,
        r#"mkdir -p ~/.cmux-kiro && cat > ~/.cmux-kiro/set-env.sh << 'CMUXEOF'
#!/bin/bash
sess="$1"; shift
export PATH="/usr/local/bin:/apollo/env/envImprovement/bin:$PATH"
while [[ $# -ge 2 ]]; do
    tmux set-environment -t "$sess" "$1" "$2"
    shift 2
done
CMUXEOF
chmod +x ~/.cmux-kiro/set-env.sh"#
    );
}

#[test]
fn attaching_runs_in_the_terminal() {
    let remote = Remote::new("h".to_string(), false, None);
    let action = SessionAction::New { name: "p/x".to_string() };
    let tmux = "PATH=/usr/local/bin:/apollo/env/envImprovement/bin:$PATH tmux -u";
    let args = ssh_args(remote.run_interactive(&action));
    assert_eq!(args[6..], ["-t".to_string(), "h".to_string(), format!("   {tmux} new -s 'p/x'")]);
    assert!(remote.reconnect(&action, Some(0)).is_none());
    for rc in [Some(255), Some(1), None] {
        let again = ssh_args(remote.reconnect(&action, rc).unwrap());
        assert_eq!(again[8], format!("   {tmux} attach -t 'p/x'"));
        let attach = SessionAction::Attach { name: "p/x".to_string() };
        assert_eq!(again, ssh_args(remote.run_interactive(&attach)));
    }
}

#[test]
fn attaching_under_the_sidebar_forwards_its_socket() {
    let remote = Remote::new("h".to_string(), false, Some(sidebar()));
    let c = sidebar();
    let action = SessionAction::Attach { name: "p/x".to_string() };
    let command = remote.build_remote_cmd(&action);
    assert_eq!(
        command,
        format!(
            "{} {} {} {}",
            c.export_prefix(),
            c.tmux_env("PATH=/usr/local/bin:/apollo/env/envImprovement/bin:$PATH tmux -u"),
            c.session_env("p/x"),
            action.tmux_cmd("PATH=/usr/local/bin:/apollo/env/envImprovement/bin:$PATH tmux -u")
        )
    );
    assert_eq!(
        remote.ssh_tty("x")[6..],
        [
            "-o",
            "StreamLocalBindUnlink=yes",
            "-o",
            "ControlPath=none",
            "-R",
            "/tmp/cmux.sock:/run/c.sock",
            "-t",
            "h",
            "x",
        ]
    );
}

#[test]
fn mosh_keeps_its_own_link() {
    let remote = Remote::new("h".to_string(), true, None);
    let action = SessionAction::Attach { name: "p/x".to_string() };
    let args = match remote.run_interactive(&action) {
        Launch::Mosh { args } => args,
        Launch::Ssh { .. } => panic!("expected mosh"),
    };
    assert_eq!(args[..4], ["h", "--", "bash", "-lc"]);
    assert_eq!(args[4], remote.build_remote_cmd(&action));
    assert!(remote.reconnect(&action, Some(255)).is_none());
    assert!(remote.reconnect(&action, None).is_none());
}

#[test]
fn a_failed_command_leaves_the_configured_sessions() {
    let remote = Remote::new("h".to_string(), false, None);
    let cfg = vec![("a".to_string(), "/a".to_string())];
    let sessions = remote.fetch_sessions(None, &cfg);
    assert_eq!(sessions.len(), 1);
    assert!(!sessions[0].running);
    assert_eq!(remote.fetch_sessions(Some("a|1|2\nb|1|2"), &cfg).len(), 2);
}

#[test]
fn quoting_keeps_every_character() {
    assert_eq!(sh_quote(""), "''");
    assert_eq!(sh_quote("'"), "''\\'''");
    assert_eq!(sh_quote("$x `y` \"z\" \\"), "'$x `y` \"z\" \\'");
}

#[test]
fn options_come_from_the_command_line() {
    let args = |list: &[&str]| -> Vec<String> { list.iter().map(|s| s.to_string()).collect() };
    let none = read_options(&args(&["prog"]), None);
    assert_eq!(none.host, "sunchit-cd2.aka.corp.amazon.com");
    assert!(!none.use_mosh && !none.list);
    let some = read_options(&args(&["prog", "h", "--mosh"]), None);
    assert_eq!(some.host, "h");
    assert!(some.use_mosh && !some.list);
    assert!(!read_options(&args(&["prog", "h", "--mosh2"]), Some("0")).use_mosh);
    assert!(!read_options(&args(&["prog", "h", "x", "--mosh"]), None).use_mosh);
    assert!(read_options(&args(&["prog"]), Some("1")).use_mosh);
    let list = read_options(&args(&["prog", "--list"]), None);
    assert_eq!(list.host, "--list");
    assert!(list.list);
    assert!(read_options(&args(&["prog", "h", "x", "--list"]), None).list);
}

#[test]
fn texts_are_read_as_the_standard_library_reads_them() {
    for raw in ["", "\n", "a", "a\n", "a\nb", "a\r\nb\r", "\r\n\r", "\n\n", "a\r", "\r", "a\rb\n\rc\n"] {
        let list: Vec<char> = raw.chars().collect();
        let ours: Vec<String> =
            split_lines(&list).into_iter().map(|l| l.into_iter().collect()).collect();
        let theirs: Vec<String> = raw.lines().map(String::from).collect();
        assert_eq!(ours, theirs);
    }
    for field in ["0", "-0", "+0", "12x", "--1", "+-1", "+", "1 ", "٣", "00000000000000000000001"] {
        let list: Vec<char> = field.chars().collect();
        assert_eq!(read_signed(&list), field.parse::<i64>().ok());
    }
    for s in ["", "/", "//a//", "a/b", "/a/b/", "a", "/ a /", " / \u{85}\u{3000}b/ c\t/\n"] {
        assert_eq!(strip_ends(s), s.trim_matches(|c: char| c.is_whitespace() || c == '/'));
    }
    for c in (0..0x11_0000u32).filter_map(char::from_u32) {
        let gone = strip_ends(&c.to_string()).is_empty();
        assert_eq!(gone, c.is_whitespace() || c == '/');
    }
    let words = ["", "a", "A", "ab", "b", "é", "z", "\u{1f600}", "\u{ffff}"];
    for a in words {
        for b in words {
            assert_eq!(sorts_before(a, b), a < b);
        }
    }
    for n in [0usize, 9, 10, 99, 100, 12345, usize::MAX] {
        assert_eq!(count_text(n), n.to_string());
    }
}
