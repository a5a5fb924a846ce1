use serde_json::Value;
use tmux_selector::archive::Archive;
use tmux_selector::config::Config;

fn keys(reload: &Value, host: &str) -> Vec<String> {
    reload[host].as_object().unwrap().keys().cloned().collect()
}

fn reloaded(text: &str) -> Value {
    serde_json::from_str(text).unwrap()
}

#[test]
fn preserves_other_hosts_and_order_on_save() {
    let seed = r#"{
  "hostA": {"proj/a": "/a", "proj/b": ""},
  "hostB": {"x/y": "/xy"}
}"#;
    let mut cfg = Config::load_from(Some(seed), "hostA");
    for (n, d) in cfg.entries() {
        cfg.upsert(&n, &d);
    }
    let text = cfg.save();

    let reload = reloaded(&text);
    assert_eq!(reload["hostB"]["x/y"], "/xy");
    assert_eq!(keys(&reload, "hostA"), vec!["proj/a", "proj/b"]);
}

#[test]
fn empty_dir_does_not_clobber_existing() {
    let mut cfg = Config::load_from(Some(r#"{"h": {"s": "/real/dir"}}"#), "h");
    cfg.upsert("s", "");
    let reload = reloaded(&cfg.save());
    assert_eq!(reload["h"]["s"], "/real/dir");
}

#[test]
fn remove_deletes_key() {
    let mut cfg = Config::load_from(Some(r#"{"h": {"a": "/a", "b": "/b"}}"#), "h");
    cfg.remove("a");
    let reload = reloaded(&cfg.save());
    assert!(reload["h"].get("a").is_none());
    assert_eq!(reload["h"]["b"], "/b");
}

#[test]
fn missing_file_yields_empty() {
    let cfg = Config::load_from(None, "h");
    assert!(cfg.entries().is_empty());
}

#[test]
fn archive_set_persists_per_host() {
    let mut a = Archive::load_from(None, "h");
    assert!(!a.is_archived("proj/x"));
    a.set("proj/x", true);
    let text = a.save();

    let reload = Archive::load_from(Some(&text), "h");
    assert!(reload.is_archived("proj/x"));
    assert!(reload.names().contains("proj/x"));

    let other = Archive::load_from(Some(&text), "other-host");
    assert!(!other.is_archived("proj/x"));
}

#[test]
fn archive_unset_removes() {
    let mut a = Archive::load_from(None, "h");
    a.set("s", true);
    a.set("s", false);
    assert!(!a.is_archived("s"));
    assert!(a.names().is_empty());
}

#[test]
fn archive_rename_follows() {
    let mut a = Archive::load_from(None, "h");
    a.set("alpha/foo", true);
    a.rename("alpha/foo", "beta/foo");
    assert!(!a.is_archived("alpha/foo"));
    assert!(a.is_archived("beta/foo"));
    a.rename("not/archived", "still/not");
    assert!(!a.is_archived("still/not"));
}

#[test]
fn files_that_hold_no_object_are_empty() {
    for text in ["", "not json", "[]", "\"x\"", "3", "null", "{\"h\":", "{} {}"] {
        let cfg = Config::load_from(Some(text), "h");
        assert!(cfg.entries().is_empty());
        assert!(cfg.is_writable());
        assert_eq!(cfg.save(), "{}");
        assert!(Archive::load_from(Some(text), "h").names().is_empty());
    }
}

#[test]
fn entries_come_in_order_with_their_texts() {
    let text = r#"{"h": {"z": "/z", "a": "", "n": 4, "o": {"k": "v"}, "u": "ä\"\\"}, "g": {"x": "/x"}}"#;
    let cfg = Config::load_from(Some(text), "h");
    let pairs = [("z", "/z"), ("a", ""), ("n", ""), ("o", ""), ("u", "ä\"\\")];
    let expected: Vec<(String, String)> =
        pairs.iter().map(|(n, d)| (n.to_string(), d.to_string())).collect();
    assert_eq!(cfg.entries(), expected);
    assert!(Config::load_from(Some(text), "none").entries().is_empty());
}

#[test]
fn a_repeated_name_counts_where_it_is_first_and_as_it_is_last() {
    let cfg = Config::load_from(Some(r#"{"h": {"a": "1", "b": "2", "a": "3"}}"#), "h");
    let expected = vec![
        ("a".to_string(), "3".to_string()),
        ("b".to_string(), "2".to_string()),
    ];
    assert_eq!(cfg.entries(), expected);
}

#[test]
fn a_host_that_is_no_object_cannot_be_written() {
    let mut cfg = Config::load_from(Some(r#"{"h": "text", "g": {}}"#), "h");
    assert!(!cfg.is_writable());
    assert!(cfg.entries().is_empty());
    cfg.remove("a");
    assert_eq!(reloaded(&cfg.save())["h"], "text");
    assert!(Config::load_from(Some(r#"{"h": "text", "g": {}}"#), "g").is_writable());
}

#[test]
fn upserts_add_at_the_end_and_replace_in_place() {
    let mut cfg = Config::load_from(None, "h");
    cfg.upsert("b", "/b");
    cfg.upsert("a", "");
    cfg.upsert("b", "/c");
    cfg.upsert("a", "");
    let expected = vec![
        ("b".to_string(), "/c".to_string()),
        ("a".to_string(), String::new()),
    ];
    assert_eq!(cfg.entries(), expected);
    assert_eq!(cfg.save(), "{\n  \"h\": {\n    \"b\": \"/c\",\n    \"a\": \"\"\n  }\n}");
}

#[test]
fn what_was_saved_is_loaded_again() {
    let mut cfg = Config::load_from(Some(r#"{"g": {"x": [1, -2, true, null]}}"#), "h");
    cfg.upsert("sla/sh", "/tmp/\"quoted\" \u{1}\u{1f600}");
    let again = Config::load_from(Some(&cfg.save()), "h");
    assert_eq!(again.entries(), cfg.entries());
    assert_eq!(again.save(), cfg.save());
    let other = Config::load_from(Some(&cfg.save()), "g");
    assert_eq!(other.entries(), vec![("x".to_string(), String::new())]);
}

#[test]
fn removing_keeps_the_order_of_the_others() {
    let mut cfg = Config::load_from(Some(r#"{"h": {"a": "1", "b": "2", "c": "3"}}"#), "h");
    cfg.remove("a");
    let expected = vec![
        ("b".to_string(), "2".to_string()),
        ("c".to_string(), "3".to_string()),
    ];
    assert_eq!(cfg.entries(), expected);
    let again = Config::load_from(Some(&cfg.save()), "h");
    assert_eq!(again.entries(), expected);
    cfg.remove("none");
    cfg.remove("b");
    cfg.remove("c");
    assert!(cfg.entries().is_empty());
    assert_eq!(cfg.save(), "{\n  \"h\": {}\n}");
}

#[test]
fn only_so_much_nesting_is_read() {
    let nested = |n: usize| format!("{{\"h\": {{\"a\": \"1\"}}, \"n\": {}{}}}", "[".repeat(n), "]".repeat(n));
    assert_eq!(Config::load_from(Some(&nested(126)), "h").entries().len(), 1);
    assert!(Config::load_from(Some(&nested(127)), "h").entries().is_empty());
}

#[test]
fn archives_list_their_names_sorted() {
    let mut a = Archive::load_from(Some(r#"{"h": ["c", 1, "a", "c"], "g": ["x"]}"#), "h");
    assert!(a.is_archived("c"));
    assert!(!a.is_archived("x"));
    a.set("b", true);
    assert_eq!(a.save(), "{\n  \"h\": [\n    \"a\",\n    \"b\",\n    \"c\"\n  ],\n  \"g\": [\n    \"x\"\n  ]\n}");
    assert_eq!(a.names().to_list(), vec!["a", "b", "c"]);
    a.set("zz", false);
    a.rename("b", "d");
    assert_eq!(a.names().to_list(), vec!["a", "c", "d"]);
    assert_eq!(a.names().len(), 3);
}

#[test]
fn an_archive_that_is_no_list_is_empty() {
    let a = Archive::load_from(Some(r#"{"h": {"a": "b"}}"#), "h");
    assert!(a.names().is_empty());
    assert!(!a.is_archived("a"));
}
