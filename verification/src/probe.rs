//! The answer of the server to the question which sessions run, and how it
//! merges with the sessions that the configuration names.
use vstd::prelude::*;
use vstd::string::*;
use crate::lines;
use crate::names;
use crate::numbers;
use crate::ssh;
use crate::ssh::{Session, SessionView};
use crate::stamp;
use crate::text;

verus! {

// --- What the answer says ---

/// A line of the first part of the answer: a session that runs.
pub struct LiveLine {
    pub name: String,
    pub created_ts: i64,
    pub activity_ts: i64,
}

/// What a [`LiveLine`] says.
#[verifier::ext_equal]
pub struct LiveLineView {
    pub name: Seq<char>,
    pub created_ts: i64,
    pub activity_ts: i64,
}

impl View for LiveLine {
    type V = LiveLineView;

    open spec fn view(&self) -> LiveLineView {
        LiveLineView {
            name: self.name@,
            created_ts: self.created_ts,
            activity_ts: self.activity_ts,
        }
    }
}

/// What each line of a list says.
pub open spec fn live_line_views(list: Seq<LiveLine>) -> Seq<LiveLineView> {
    list.map_values(|l: LiveLine| l@)
}

/// The characters of each pair of a list of pairs.
pub open spec fn pair_texts(list: Seq<(String, String)>) -> Seq<(Seq<char>, Seq<char>)> {
    list.map_values(|p: (String, String)| (p.0@, p.1@))
}

/// The timestamp that a field writes, 0 where it writes none.
pub open spec fn timestamp(field: Seq<char>) -> i64 {
    match numbers::signed_64(field) {
        Some(ts) => ts,
        None => 0,
    }
}

/// The sessions that the lines `name|created|activity` list; other lines say
/// nothing.
pub open spec fn live_lines(list: Seq<Seq<char>>) -> Seq<LiveLineView>
    decreases list.len(),
{
    if list.len() == 0 {
        Seq::empty()
    } else {
        let above = live_lines(list.drop_last());
        match lines::three_fields(list.last()) {
            Some((name, created, activity)) => above.push(
                LiveLineView {
                    name,
                    created_ts: timestamp(created),
                    activity_ts: timestamp(activity),
                },
            ),
            None => above,
        }
    }
}

/// The directories that the lines `name|directory` list; other lines say
/// nothing.
pub open spec fn dir_lines(list: Seq<Seq<char>>) -> Seq<(Seq<char>, Seq<char>)>
    decreases list.len(),
{
    if list.len() == 0 {
        Seq::empty()
    } else {
        let above = dir_lines(list.drop_last());
        match text::split_once(list.last(), '|') {
            Some((name, dir)) => above.push((name, dir)),
            None => above,
        }
    }
}

/// How many lines stand before the one that separates the two parts.
pub open spec fn first_part(list: Seq<Seq<char>>) -> int {
    names::first_place(list, "==="@)
}

/// The running sessions that an answer lists.
pub open spec fn answer_live(raw: Seq<char>) -> Seq<LiveLineView> {
    let list = lines::lines(raw);
    live_lines(list.take(first_part(list)))
}

/// The directories that an answer lists.
pub open spec fn answer_dirs(raw: Seq<char>) -> Seq<(Seq<char>, Seq<char>)> {
    let list = lines::lines(raw);
    dir_lines(list.skip(first_part(list)))
}

/// The answer of the server: the running sessions, and their directories.
pub struct Answer {
    pub live: Vec<LiveLine>,
    pub dirs: Vec<(String, String)>,
}

/// The timestamp that a field writes, 0 where it writes none.
fn read_timestamp(field: &Vec<char>) -> (r: i64)
    ensures
        r == timestamp(field@),
{
    match numbers::read_signed(field) {
        Some(ts) => ts,
        None => 0,
    }
}

/// Whether a line is the one that separates the two parts.
fn is_separator(line: &Vec<char>) -> (r: bool)
    ensures
        r == (line@ == "==="@),
{
    text::same_text(text::string_of(line).as_str(), "===")
}

/// Reads the answer: lines `name|created|activity` up to the line `===`, and
/// lines `name|directory` behind it.
pub fn read_answer(raw: &str) -> (r: Answer)
    ensures
        live_line_views(r.live@) == answer_live(raw@),
        pair_texts(r.dirs@) == answer_dirs(raw@),
{
    let list = lines::split_lines(&text::char_list(raw));
    let ghost all = lines::line_texts(list@);
    let ghost cut = first_part(all);
    let mut live: Vec<LiveLine> = Vec::new();
    let mut i: usize = 0;
    assert(live_line_views(live@) =~= live_lines(all.take(0)));
    while i < list.len() && !is_separator(&list[i])
        invariant
            i <= list.len(),
            all == lines::line_texts(list@),
            forall|j: int| 0 <= j < i ==> #[trigger] all[j] != "==="@,
            live_line_views(live@) == live_lines(all.take(i as int)),
        decreases list.len() - i,
    {
        assert(all[i as int] == list@[i as int]@);
        assert(all.take(i + 1).drop_last() =~= all.take(i as int));
        assert(all.take(i + 1).last() == all[i as int]);
        let ghost before = live_line_views(live@);
        if let Some((name, created, activity)) = lines::split_three(&list[i]) {
            let line = LiveLine {
                name: text::string_of(&name),
                created_ts: read_timestamp(&created),
                activity_ts: read_timestamp(&activity),
            };
            live.push(line);
            assert(live_line_views(live@) =~= before.push(line@));
        }
        i += 1;
    }
    proof {
        names::lemma_first_place(all, "==="@, i as int);
        assert(cut == i);
    }
    let mut dirs: Vec<(String, String)> = Vec::new();
    let ghost rest = all.skip(cut);
    assert(pair_texts(dirs@) =~= dir_lines(rest.take(0)));
    while i < list.len()
        invariant
            cut <= i <= list.len(),
            0 <= cut,
            all == lines::line_texts(list@),
            rest == all.skip(cut),
            pair_texts(dirs@) == dir_lines(rest.take(i - cut)),
        decreases list.len() - i,
    {
        assert(all[i as int] == list@[i as int]@);
        assert(rest.take(i + 1 - cut).drop_last() =~= rest.take(i - cut));
        assert(rest.take(i + 1 - cut).last() == all[i as int]);
        let ghost before = pair_texts(dirs@);
        if let Some((name, dir)) = text::split_list(&list[i], '|') {
            dirs.push((text::string_of(&name), text::string_of(&dir)));
            assert(pair_texts(dirs@) =~= before.push((name@, dir@)));
        }
        i += 1;
    }
    assert(rest.take(i - cut) =~= rest);
    Answer { live, dirs }
}

// --- Stamping ---

/// A session that runs, with its timestamps as they are shown.
pub struct LiveSession {
    pub name: String,
    pub created: String,
    pub activity: String,
    pub activity_ts: i64,
}

/// What a [`LiveSession`] says.
#[verifier::ext_equal]
pub struct LiveView {
    pub name: Seq<char>,
    pub created: Seq<char>,
    pub activity: Seq<char>,
    pub activity_ts: i64,
}

impl View for LiveSession {
    type V = LiveView;

    open spec fn view(&self) -> LiveView {
        LiveView {
            name: self.name@,
            created: self.created@,
            activity: self.activity@,
            activity_ts: self.activity_ts,
        }
    }
}

/// What each session of a list says.
pub open spec fn live_views(list: Seq<LiveSession>) -> Seq<LiveView> {
    list.map_values(|l: LiveSession| l@)
}

/// Whether `stamped` are the sessions of `list`, each with texts that its
/// timestamps can be shown as.
pub open spec fn is_stamped(list: Seq<LiveLineView>, stamped: Seq<LiveView>) -> bool {
    &&& stamped.len() == list.len()
    &&& forall|i: int|
        0 <= i < list.len() ==> {
            &&& (#[trigger] stamped[i]).name == list[i].name
            &&& stamped[i].activity_ts == list[i].activity_ts
            &&& stamp::shows(list[i].created_ts, stamped[i].created)
            &&& stamp::shows(list[i].activity_ts, stamped[i].activity)
        }
}

/// The sessions with their timestamps as they are shown.
fn stamp_all(list: Vec<LiveLine>) -> (r: Vec<LiveSession>)
    ensures
        is_stamped(live_line_views(list@), live_views(r@)),
{
    let mut out: Vec<LiveSession> = Vec::new();
    let mut i: usize = 0;
    while i < list.len()
        invariant
            i <= list.len(),
            is_stamped(live_line_views(list@).take(i as int), live_views(out@)),
        decreases list.len() - i,
    {
        let ghost before = live_views(out@);
        let line = LiveSession {
            name: list[i].name.clone(),
            created: stamp::fmt_ts(list[i].created_ts),
            activity: stamp::fmt_ts(list[i].activity_ts),
            activity_ts: list[i].activity_ts,
        };
        assert(live_line_views(list@)[i as int] == list@[i as int]@);
        out.push(line);
        proof {
            assert(live_views(out@) =~= before.push(line@));
            let longer = live_line_views(list@).take(i + 1);
            assert forall|j: int| 0 <= j < longer.len() implies {
                &&& (#[trigger] live_views(out@)[j]).name == longer[j].name
                &&& live_views(out@)[j].activity_ts == longer[j].activity_ts
                &&& stamp::shows(longer[j].created_ts, live_views(out@)[j].created)
                &&& stamp::shows(longer[j].activity_ts, live_views(out@)[j].activity)
            } by {
                if j < i {
                    assert(live_views(out@)[j] == before[j]);
                    assert(longer[j] == live_line_views(list@).take(i as int)[j]);
                }
            }
        }
        i += 1;
    }
    assert(live_line_views(list@).take(i as int) =~= live_line_views(list@));
    out
}

// --- Merging ---

/// What the list says of the session `name`; the last word counts.
pub open spec fn last_live(live: Seq<LiveView>, name: Seq<char>) -> Option<LiveView>
    decreases live.len(),
{
    if live.len() == 0 {
        None
    } else if live.last().name == name {
        Some(live.last())
    } else {
        last_live(live.drop_last(), name)
    }
}

/// The directory of `name`; the last word counts, and without one it is empty.
pub open spec fn last_dir(dirs: Seq<(Seq<char>, Seq<char>)>, name: Seq<char>) -> Seq<char>
    decreases dirs.len(),
{
    if dirs.len() == 0 {
        Seq::empty()
    } else if dirs.last().0 == name {
        dirs.last().1
    } else {
        last_dir(dirs.drop_last(), name)
    }
}

/// The session that `line` says runs.
pub open spec fn running_session(
    line: LiveView,
    dirs: Seq<(Seq<char>, Seq<char>)>,
) -> SessionView {
    SessionView {
        name: line.name,
        running: true,
        created: line.created,
        activity: line.activity,
        activity_ts: line.activity_ts,
        dir: last_dir(dirs, line.name),
    }
}

/// The session that the configuration names and that does not run.
pub open spec fn stopped_session(name: Seq<char>, dir: Seq<char>) -> SessionView {
    SessionView {
        name,
        running: false,
        created: Seq::empty(),
        activity: Seq::empty(),
        activity_ts: 0,
        dir,
    }
}

/// A session that the configuration names with the directory `dir`: as it
/// runs where it does, else stopped.
pub open spec fn configured_session(
    live: Seq<LiveView>,
    dirs: Seq<(Seq<char>, Seq<char>)>,
    name: Seq<char>,
    dir: Seq<char>,
) -> SessionView {
    match last_live(live, name) {
        Some(line) => running_session(line, dirs),
        None => stopped_session(name, dir),
    }
}

/// The names of the running sessions that the configuration does not name, in
/// the order of the answer.
pub open spec fn unknown_names(
    live: Seq<LiveView>,
    config: Seq<(Seq<char>, Seq<char>)>,
) -> Seq<Seq<char>> {
    live.map_values(|l: LiveView| l.name).filter(|n: Seq<char>| !names_of(config).contains(n))
}

/// The names of the configured sessions.
pub open spec fn names_of(config: Seq<(Seq<char>, Seq<char>)>) -> Seq<Seq<char>> {
    config.map_values(|entry: (Seq<char>, Seq<char>)| entry.0)
}

/// All sessions: first those that the configuration names, in its order; then
/// those that run besides, by name.
pub open spec fn merged(
    live: Seq<LiveView>,
    dirs: Seq<(Seq<char>, Seq<char>)>,
    config: Seq<(Seq<char>, Seq<char>)>,
) -> Seq<SessionView> {
    let known = config.map_values(
        |entry: (Seq<char>, Seq<char>)| configured_session(live, dirs, entry.0, entry.1),
    );
    let unknown = names::sorted_set(unknown_names(live, config));
    known + unknown.map_values(
        |name: Seq<char>| running_session(last_live(live, name)->0, dirs),
    )
}

/// The place of the last word on `name`.
fn find_live(live: &Vec<LiveSession>, name: &str) -> (r: Option<usize>)
    ensures
        match r {
            Some(i) => i < live.len() && last_live(live_views(live@), name@) == Some(
                live@[i as int]@,
            ),
            None => last_live(live_views(live@), name@) is None,
        },
{
    let ghost all = live_views(live@);
    let mut i: usize = live.len();
    assert(all.take(i as int) =~= all);
    while i > 0
        invariant
            i <= live.len(),
            all == live_views(live@),
            last_live(all, name@) == last_live(all.take(i as int), name@),
        decreases i,
    {
        assert(all.take(i as int).drop_last() =~= all.take(i - 1));
        assert(all.take(i as int).last() == live@[i - 1]@);
        if text::same_text(live[i - 1].name.as_str(), name) {
            return Some(i - 1);
        }
        i -= 1;
    }
    None
}

/// The directory of `name`.
fn find_dir(dirs: &Vec<(String, String)>, name: &str) -> (r: String)
    ensures
        r@ == last_dir(pair_texts(dirs@), name@),
{
    let ghost all = pair_texts(dirs@);
    let mut i: usize = dirs.len();
    assert(all.take(i as int) =~= all);
    while i > 0
        invariant
            i <= dirs.len(),
            all == pair_texts(dirs@),
            last_dir(all, name@) == last_dir(all.take(i as int), name@),
        decreases i,
    {
        assert(all.take(i as int).drop_last() =~= all.take(i - 1));
        assert(all.take(i as int).last() == (dirs@[i - 1].0@, dirs@[i - 1].1@));
        if text::same_text(dirs[i - 1].0.as_str(), name) {
            return dirs[i - 1].1.clone();
        }
        i -= 1;
    }
    String::new()
}

/// The session that `line` says runs.
fn make_running(line: &LiveSession, dirs: &Vec<(String, String)>) -> (r: Session)
    ensures
        r@ == running_session(line@, pair_texts(dirs@)),
{
    Session {
        name: line.name.clone(),
        running: true,
        created: line.created.clone(),
        activity: line.activity.clone(),
        activity_ts: line.activity_ts,
        dir: find_dir(dirs, line.name.as_str()),
    }
}

/// A session that the configuration names.
fn make_configured(
    live: &Vec<LiveSession>,
    dirs: &Vec<(String, String)>,
    name: &str,
    dir: &str,
) -> (r: Session)
    ensures
        r@ == configured_session(live_views(live@), pair_texts(dirs@), name@, dir@),
{
    match find_live(live, name) {
        Some(i) => make_running(&live[i], dirs),
        None => Session {
            name: name.to_string(),
            running: false,
            created: String::new(),
            activity: String::new(),
            activity_ts: 0,
            dir: dir.to_string(),
        },
    }
}

/// Whether the configuration names `name`.
fn is_configured(config: &[(String, String)], name: &str) -> (r: bool)
    ensures
        r == names_of(pair_texts(config@)).contains(name@),
{
    let ghost all = names_of(pair_texts(config@));
    let mut i: usize = 0;
    while i < config.len()
        invariant
            i <= config@.len(),
            all == names_of(pair_texts(config@)),
            forall|j: int| 0 <= j < i ==> all[j] != name@,
        decreases config.len() - i,
    {
        assert(all[i as int] == config@[i as int].0@);
        if text::same_text(config[i].0.as_str(), name) {
            return true;
        }
        i += 1;
    }
    false
}

/// The names of the running sessions that the configuration does not name.
fn list_unknown(live: &Vec<LiveSession>, config: &[(String, String)]) -> (r: Vec<String>)
    ensures
        text::texts(r@) == unknown_names(live_views(live@), pair_texts(config@)),
{
    let ghost all = live_views(live@).map_values(|l: LiveView| l.name);
    let ghost keep = |n: Seq<char>| !names_of(pair_texts(config@)).contains(n);
    let mut out: Vec<String> = Vec::new();
    let mut i: usize = 0;
    proof {
        reveal(Seq::filter);
        assert(text::texts(out@) =~= all.take(0).filter(keep));
    }
    while i < live.len()
        invariant
            i <= live.len(),
            all == live_views(live@).map_values(|l: LiveView| l.name),
            keep == (|n: Seq<char>| !names_of(pair_texts(config@)).contains(n)),
            text::texts(out@) == all.take(i as int).filter(keep),
        decreases live.len() - i,
    {
        let ghost before = text::texts(out@);
        proof {
            reveal(Seq::filter);
            assert(all.take(i + 1).drop_last() =~= all.take(i as int));
            assert(all.take(i + 1).last() == live@[i as int].name@);
        }
        if !is_configured(config, live[i].name.as_str()) {
            out.push(live[i].name.clone());
            assert(text::texts(out@) =~= before.push(live@[i as int].name@));
        }
        i += 1;
    }
    assert(all.take(i as int) =~= all);
    out
}

/// A name that a filtered list of the running names holds is one of them.
proof fn lemma_unknown_runs(
    live: Seq<LiveView>,
    config: Seq<(Seq<char>, Seq<char>)>,
    name: Seq<char>,
)
    requires
        unknown_names(live, config).contains(name),
    ensures
        last_live(live, name) matches Some(line) && line.name == name,
        !names_of(config).contains(name),
{
    let all = live.map_values(|l: LiveView| l.name);
    let keep = |n: Seq<char>| !names_of(config).contains(n);
    all.lemma_filter_contains_rev(keep, name);
    all.lemma_filter_pred(keep, unknown_names(live, config).index_of(name));
    let i = choose|i: int| 0 <= i < all.len() && all[i] == name;
    lemma_last_live(live, name, i);
}

/// Where a list speaks of a name, there is a last word on it.
proof fn lemma_last_live(live: Seq<LiveView>, name: Seq<char>, i: int)
    requires
        0 <= i < live.len(),
        live[i].name == name,
    ensures
        last_live(live, name) matches Some(line) && line.name == name,
    decreases live.len(),
{
    if live.last().name != name {
        assert(live.drop_last()[i] == live[i]);
        lemma_last_live(live.drop_last(), name, i);
    }
}

/// All sessions: first those that the configuration names, in its order; then
/// those that run besides, by name.
pub fn merge_sessions(
    live: &Vec<LiveSession>,
    dirs: &Vec<(String, String)>,
    config_entries: &[(String, String)],
) -> (r: Vec<Session>)
    ensures
        ssh::session_views(r@) == merged(
            live_views(live@),
            pair_texts(dirs@),
            pair_texts(config_entries@),
        ),
{
    let ghost lv = live_views(live@);
    let ghost dv = pair_texts(dirs@);
    let ghost cv = pair_texts(config_entries@);
    let ghost known = cv.map_values(
        |entry: (Seq<char>, Seq<char>)| configured_session(lv, dv, entry.0, entry.1),
    );
    let mut out: Vec<Session> = Vec::new();
    let mut i: usize = 0;
    while i < config_entries.len()
        invariant
            i <= config_entries@.len(),
            lv == live_views(live@),
            dv == pair_texts(dirs@),
            cv == pair_texts(config_entries@),
            known == cv.map_values(
                |entry: (Seq<char>, Seq<char>)| configured_session(lv, dv, entry.0, entry.1),
            ),
            ssh::session_views(out@) == known.take(i as int),
        decreases config_entries.len() - i,
    {
        let s = make_configured(
            live,
            dirs,
            config_entries[i].0.as_str(),
            config_entries[i].1.as_str(),
        );
        let ghost before = ssh::session_views(out@);
        assert(cv[i as int] == (config_entries@[i as int].0@, config_entries@[i as int].1@));
        assert(known[i as int] == s@);
        out.push(s);
        assert(ssh::session_views(out@) =~= before.push(s@));
        assert(known.take(i + 1) =~= known.take(i as int).push(s@));
        i += 1;
    }
    assert(known.take(i as int) =~= known);
    let extra = names::sort_names(&list_unknown(live, config_entries));
    let ghost names = text::texts(extra@);
    let ghost tail = names.map_values(
        |name: Seq<char>| running_session(last_live(lv, name)->0, dv),
    );
    let mut k: usize = 0;
    assert(known + tail.take(0) =~= known);
    while k < extra.len()
        invariant
            k <= extra.len(),
            lv == live_views(live@),
            dv == pair_texts(dirs@),
            names == text::texts(extra@),
            names::is_sorted_set(names, unknown_names(lv, cv)),
            tail == names.map_values(
                |name: Seq<char>| running_session(last_live(lv, name)->0, dv),
            ),
            ssh::session_views(out@) == known + tail.take(k as int),
        decreases extra.len() - k,
    {
        let ghost before = ssh::session_views(out@);
        proof {
            assert(names[k as int] == extra@[k as int]@);
            assert(names.contains(names[k as int]));
            lemma_unknown_runs(lv, cv, names[k as int]);
        }
        if let Some(i) = find_live(live, extra[k].as_str()) {
            let s = make_running(&live[i], dirs);
            out.push(s);
            assert(ssh::session_views(out@) =~= before.push(s@));
            assert(tail[k as int] == s@);
            assert(known + tail.take(k + 1) =~= (known + tail.take(k as int)).push(s@));
        }
        k += 1;
    }
    assert(tail.take(k as int) =~= tail);
    out
}

/// Whether `sessions` are the sessions that an answer and a configuration
/// give, with some texts that their timestamps can be shown as.
pub open spec fn is_merge_of(
    sessions: Seq<SessionView>,
    raw: Seq<char>,
    config: Seq<(Seq<char>, Seq<char>)>,
) -> bool {
    exists|stamped: Seq<LiveView>|
        is_stamped(answer_live(raw), stamped) && sessions == #[trigger] merged(
            stamped,
            answer_dirs(raw),
            config,
        )
}

/// Reads the answer of the server and merges it with the sessions that the
/// configuration names.
pub fn parse_and_merge(raw: &str, config_entries: &[(String, String)]) -> (r: Vec<Session>)
    ensures
        is_merge_of(ssh::session_views(r@), raw@, pair_texts(config_entries@)),
{
    let answer = read_answer(raw);
    let live = stamp_all(answer.live);
    merge_sessions(&live, &answer.dirs, config_entries)
}

// --- Laws ---

/// Whether a session of the given name runs.
pub open spec fn is_live(live: Seq<LiveView>, name: Seq<char>) -> bool {
    exists|j: int| 0 <= j < live.len() && #[trigger] live[j].name == name
}

/// The last running session of a name exists where one does.
proof fn lemma_last_live_exists(live: Seq<LiveView>, name: Seq<char>)
    ensures
        last_live(live, name) is Some <==> is_live(live, name),
        last_live(live, name) matches Some(line) ==> line.name == name,
    decreases live.len(),
{
    if live.len() > 0 {
        let rest = live.drop_last();
        lemma_last_live_exists(rest, name);
        if live.last().name == name {
            assert(live[live.len() - 1].name == name);
        } else {
            if is_live(live, name) {
                let j = choose|j: int| 0 <= j < live.len() && #[trigger] live[j].name == name;
                assert(rest[j].name == name);
            }
            if is_live(rest, name) {
                let j = choose|j: int| 0 <= j < rest.len() && #[trigger] rest[j].name == name;
                assert(live[j].name == name);
            }
        }
    }
}

/// The running sessions that the configuration does not name.
proof fn lemma_unknown(
    live: Seq<LiveView>,
    config: Seq<(Seq<char>, Seq<char>)>,
    name: Seq<char>,
)
    ensures
        unknown_names(live, config).contains(name) <==> is_live(live, name) && !names_of(
            config,
        ).contains(name),
{
    let all = live.map_values(|l: LiveView| l.name);
    let keep = |n: Seq<char>| !names_of(config).contains(n);
    if unknown_names(live, config).contains(name) {
        lemma_unknown_runs(live, config, name);
        lemma_last_live_exists(live, name);
    }
    if is_live(live, name) && !names_of(config).contains(name) {
        let j = choose|j: int| 0 <= j < live.len() && #[trigger] live[j].name == name;
        assert(all[j] == name);
        let at = choose|at: int| 0 <= at < all.len() && all[at] == name && keep(all[at]);
        all.lemma_filter_contains(keep, at);
    }
}

/// The configured sessions come first, in their order; behind them the other
/// running ones, in the order of their names. A session is shown as running
/// where it runs, and only there, and every running one is shown.
pub proof fn merging_shows_every_session(
    live: Seq<LiveView>,
    dirs: Seq<(Seq<char>, Seq<char>)>,
    config: Seq<(Seq<char>, Seq<char>)>,
)
    ensures
        ({
            let all = merged(live, dirs, config);
            &&& all.len() >= config.len()
            &&& forall|i: int| 0 <= i < config.len() ==> (#[trigger] all[i]).name == config[i].0
            &&& forall|i: int|
                config.len() <= i < all.len() ==> !names_of(config).contains(
                    (#[trigger] all[i]).name,
                )
            &&& forall|a: int, b: int|
                config.len() <= a < b < all.len() ==> text::text_before(
                    (#[trigger] all[a]).name,
                    (#[trigger] all[b]).name,
                )
            &&& forall|i: int|
                0 <= i < all.len() ==> (#[trigger] all[i]).running == is_live(live, all[i].name)
            &&& forall|j: int|
                0 <= j < live.len() ==> exists|i: int|
                    0 <= i < all.len() && #[trigger] all[i].name == (#[trigger] live[j]).name
        }),
{
    let all = merged(live, dirs, config);
    let unknown = names::sorted_set(unknown_names(live, config));
    names::sorted_set_exists(unknown_names(live, config));
    assert forall|i: int| 0 <= i < config.len() implies (#[trigger] all[i]).name == config[i].0
        && all[i].running == is_live(live, all[i].name) by {
        lemma_last_live_exists(live, config[i].0);
    }
    assert forall|i: int| config.len() <= i < all.len() implies (#[trigger] all[i]).name
        == unknown[i - config.len()] && all[i].running && is_live(live, all[i].name)
        && !names_of(config).contains(all[i].name) by {
        let name = unknown[i - config.len()];
        assert(unknown.contains(name));
        lemma_unknown(live, config, name);
        lemma_last_live_exists(live, name);
    }
    assert forall|j: int| 0 <= j < live.len() implies exists|i: int|
        0 <= i < all.len() && #[trigger] all[i].name == (#[trigger] live[j]).name by {
        let name = live[j].name;
        assert(is_live(live, name));
        if names_of(config).contains(name) {
            let i = choose|i: int| 0 <= i < names_of(config).len() && names_of(config)[i] == name;
            assert(all[i].name == name);
        } else {
            lemma_unknown(live, config, name);
            assert(unknown.contains(name));
            let k = choose|k: int| 0 <= k < unknown.len() && unknown[k] == name;
            assert(all[config.len() + k].name == name);
        }
    }
}

/// Where the configuration names each session once, each is shown once.
pub proof fn merging_shows_each_session_once(
    live: Seq<LiveView>,
    dirs: Seq<(Seq<char>, Seq<char>)>,
    config: Seq<(Seq<char>, Seq<char>)>,
)
    requires
        names_of(config).no_duplicates(),
    ensures
        merged(live, dirs, config).map_values(|s: SessionView| s.name).no_duplicates(),
{
    let all = merged(live, dirs, config);
    merging_shows_every_session(live, dirs, config);
    let shown = all.map_values(|s: SessionView| s.name);
    assert forall|a: int, b: int| 0 <= a < b < shown.len() implies shown[a] != shown[b] by {
        assert(shown[a] == all[a].name && shown[b] == all[b].name);
        if b < config.len() {
            assert(names_of(config)[a] == shown[a] && names_of(config)[b] == shown[b]);
        } else if a < config.len() {
            assert(names_of(config)[a] == shown[a]);
            assert(names_of(config).contains(shown[a]));
        } else {
            text::lemma_text_before_irreflexive(shown[a]);
        }
    }
}

/// Without a configured session, and without a running one, there is none.
pub proof fn merging_nothing(sessions: Seq<SessionView>, raw: Seq<char>)
    requires
        is_merge_of(sessions, raw, Seq::empty()),
        answer_live(raw).len() == 0,
    ensures
        sessions.len() == 0,
{
    let config: Seq<(Seq<char>, Seq<char>)> = Seq::empty();
    let live = choose|stamped: Seq<LiveView>|
        is_stamped(answer_live(raw), stamped) && sessions == #[trigger] merged(
            stamped,
            answer_dirs(raw),
            config,
        );
    merging_shows_every_session(live, answer_dirs(raw), config);
    if sessions.len() > 0 {
        assert(sessions[0].running == is_live(live, sessions[0].name));
        let unknown = names::sorted_set(unknown_names(live, config));
        names::sorted_set_exists(unknown_names(live, config));
        assert(unknown.contains(unknown[0]));
        lemma_unknown(live, config, unknown[0]);
    }
}

/// Whether line `j` is the last that lists a session of the given name.
pub open spec fn is_last_line(list: Seq<LiveLineView>, j: int, name: Seq<char>) -> bool {
    &&& 0 <= j < list.len()
    &&& list[j].name == name
    &&& forall|k: int| j < k < list.len() ==> (#[trigger] list[k]).name != name
}

/// The last word on a name is what the last line of that name says.
proof fn lemma_last_live_place(live: Seq<LiveView>, name: Seq<char>) -> (j: int)
    requires
        last_live(live, name) is Some,
    ensures
        0 <= j < live.len(),
        live[j].name == name,
        last_live(live, name) == Some(live[j]),
        forall|k: int| j < k < live.len() ==> (#[trigger] live[k]).name != name,
    decreases live.len(),
{
    if live.last().name == name {
        live.len() - 1
    } else {
        let rest = live.drop_last();
        let j = lemma_last_live_place(rest, name);
        assert forall|k: int| j < k < live.len() implies (#[trigger] live[k]).name != name by {
            if k < rest.len() {
                assert(rest[k] == live[k]);
            }
        }
        j
    }
}

/// The directory of a name is the one that the last line of that name gives;
/// without such a line there is none.
pub proof fn the_last_directory_counts(dirs: Seq<(Seq<char>, Seq<char>)>, name: Seq<char>)
    ensures
        forall|j: int|
            0 <= j < dirs.len() && (#[trigger] dirs[j]).0 == name && (forall|k: int|
                j < k < dirs.len() ==> (#[trigger] dirs[k]).0 != name) ==> last_dir(dirs, name)
                == dirs[j].1,
        (forall|j: int| 0 <= j < dirs.len() ==> (#[trigger] dirs[j]).0 != name) ==> last_dir(
            dirs,
            name,
        ).len() == 0,
    decreases dirs.len(),
{
    if dirs.len() > 0 {
        let rest = dirs.drop_last();
        let end = dirs.len() - 1;
        the_last_directory_counts(rest, name);
        assert(dirs.last() == dirs[end]);
        assert forall|j: int|
            0 <= j < dirs.len() && (#[trigger] dirs[j]).0 == name && (forall|k: int|
                j < k < dirs.len() ==> (#[trigger] dirs[k]).0 != name) implies last_dir(dirs, name)
            == dirs[j].1 by {
            if j < end {
                assert(dirs[end].0 != name);
                assert(rest[j] == dirs[j]);
                assert forall|k: int| j < k < rest.len() implies (#[trigger] rest[k]).0 != name by {
                    assert(rest[k] == dirs[k]);
                }
            }
        }
        if forall|j: int| 0 <= j < dirs.len() ==> (#[trigger] dirs[j]).0 != name {
            assert(dirs[end].0 != name);
            assert forall|j: int| 0 <= j < rest.len() implies (#[trigger] rest[j]).0 != name by {
                assert(rest[j] == dirs[j]);
            }
        }
    }
}

/// Every session that is shown as running is shown as the host's answer has it,
/// whether the configuration names it or not: with the texts of the times, and
/// the time of the last activity, that the last line of its name gives, and in
/// the directory that the last line with a directory for it gives.
pub proof fn running_sessions_are_as_answered(
    sessions: Seq<SessionView>,
    raw: Seq<char>,
    config: Seq<(Seq<char>, Seq<char>)>,
    i: int,
)
    requires
        is_merge_of(sessions, raw, config),
        0 <= i < sessions.len(),
        sessions[i].running,
    ensures
        exists|j: int| #[trigger]
            is_last_line(answer_live(raw), j, sessions[i].name) && sessions[i].activity_ts
                == answer_live(raw)[j].activity_ts && stamp::shows(
                answer_live(raw)[j].created_ts,
                sessions[i].created,
            ) && stamp::shows(answer_live(raw)[j].activity_ts, sessions[i].activity),
        sessions[i].dir == last_dir(answer_dirs(raw), sessions[i].name),
{
    let live = choose|stamped: Seq<LiveView>|
        is_stamped(answer_live(raw), stamped) && sessions == #[trigger] merged(
            stamped,
            answer_dirs(raw),
            config,
        );
    let name = sessions[i].name;
    merging_shows_every_session(live, answer_dirs(raw), config);
    lemma_last_live_exists(live, name);
    let j = lemma_last_live_place(live, name);
    let answered = answer_live(raw);
    assert(live[j].name == answered[j].name);
    assert forall|k: int| j < k < answered.len() implies (#[trigger] answered[k]).name != name by {
        assert(live[k].name == answered[k].name);
    }
    assert(is_last_line(answered, j, name));
    if i >= config.len() {
        let unknown = names::sorted_set(unknown_names(live, config));
        names::sorted_set_exists(unknown_names(live, config));
        let k = i - config.len();
        assert(unknown.contains(unknown[k]));
        lemma_unknown(live, config, unknown[k]);
        lemma_last_live_exists(live, unknown[k]);
        assert(sessions[i] == running_session(last_live(live, unknown[k])->0, answer_dirs(raw)));
    } else {
        assert(sessions[i] == configured_session(
            live,
            answer_dirs(raw),
            config[i].0,
            config[i].1,
        ));
    }
}

/// A session that is shown as stopped is one that the configuration names, in
/// the place and in the directory that it gives, and that the answer does not
/// list. It has no times.
pub proof fn stopped_sessions_are_as_remembered(
    sessions: Seq<SessionView>,
    raw: Seq<char>,
    config: Seq<(Seq<char>, Seq<char>)>,
    i: int,
)
    requires
        is_merge_of(sessions, raw, config),
        0 <= i < sessions.len(),
        !sessions[i].running,
    ensures
        i < config.len(),
        sessions[i].name == config[i].0,
        sessions[i].dir == config[i].1,
        sessions[i].created.len() == 0,
        sessions[i].activity.len() == 0,
        sessions[i].activity_ts == 0,
        forall|j: int|
            0 <= j < answer_live(raw).len() ==> (#[trigger] answer_live(raw)[j]).name
                != sessions[i].name,
{
    let live = choose|stamped: Seq<LiveView>|
        is_stamped(answer_live(raw), stamped) && sessions == #[trigger] merged(
            stamped,
            answer_dirs(raw),
            config,
        );
    merging_shows_every_session(live, answer_dirs(raw), config);
    if i >= config.len() {
        let unknown = names::sorted_set(unknown_names(live, config));
        assert(sessions[i] == running_session(
            last_live(live, unknown[i - config.len()])->0,
            answer_dirs(raw),
        ));
    }
    assert(sessions[i] == configured_session(live, answer_dirs(raw), config[i].0, config[i].1));
    lemma_last_live_exists(live, config[i].0);
    assert forall|j: int| 0 <= j < answer_live(raw).len() implies (#[trigger] answer_live(
        raw,
    )[j]).name != sessions[i].name by {
        assert(live[j].name == answer_live(raw)[j].name);
    }
}

/// Whether a list holds a session of the given name.
pub open spec fn is_shown(sessions: Seq<SessionView>, name: Seq<char>) -> bool {
    exists|i: int| 0 <= i < sessions.len() && #[trigger] sessions[i].name == name
}

/// The sessions of an answer and a configuration: first the ones that the
/// configuration names, in its order; then every other one that the answer
/// lists, once, in the order of their names. One is shown as running exactly
/// where the answer lists it.
pub proof fn a_fetch_shows_every_session(
    sessions: Seq<SessionView>,
    raw: Seq<char>,
    config: Seq<(Seq<char>, Seq<char>)>,
)
    requires
        is_merge_of(sessions, raw, config),
    ensures
        sessions.len() >= config.len(),
        forall|i: int| 0 <= i < config.len() ==> (#[trigger] sessions[i]).name == config[i].0,
        forall|i: int, k: int|
            config.len() <= i < sessions.len() && 0 <= k < config.len() ==> (
            #[trigger] sessions[i]).name != (#[trigger] config[k]).0,
        forall|a: int, b: int|
            config.len() <= a < b < sessions.len() ==> text::text_before(
                (#[trigger] sessions[a]).name,
                (#[trigger] sessions[b]).name,
            ),
        forall|i: int|
            0 <= i < sessions.len() ==> ((#[trigger] sessions[i]).running <==> exists|j: int|
                0 <= j < answer_live(raw).len() && #[trigger] answer_live(raw)[j].name
                    == sessions[i].name),
        forall|j: int|
            0 <= j < answer_live(raw).len() ==> is_shown(
                sessions,
                (#[trigger] answer_live(raw)[j]).name,
            ),
{
    let live = choose|stamped: Seq<LiveView>|
        is_stamped(answer_live(raw), stamped) && sessions == #[trigger] merged(
            stamped,
            answer_dirs(raw),
            config,
        );
    let answered = answer_live(raw);
    merging_shows_every_session(live, answer_dirs(raw), config);
    assert forall|i: int, k: int|
        config.len() <= i < sessions.len() && 0 <= k < config.len() implies (
    #[trigger] sessions[i]).name != (#[trigger] config[k]).0 by {
        assert(names_of(config)[k] == config[k].0);
        assert(names_of(config).contains(config[k].0));
    }
    assert forall|i: int| 0 <= i < sessions.len() implies ((#[trigger] sessions[i]).running
        <==> exists|j: int|
        0 <= j < answered.len() && #[trigger] answered[j].name == sessions[i].name) by {
        if is_live(live, sessions[i].name) {
            let j = choose|j: int|
                0 <= j < live.len() && #[trigger] live[j].name == sessions[i].name;
            assert(answered[j].name == sessions[i].name);
        }
        if exists|j: int|
            0 <= j < answered.len() && #[trigger] answered[j].name == sessions[i].name {
            let j = choose|j: int|
                0 <= j < answered.len() && #[trigger] answered[j].name == sessions[i].name;
            assert(live[j].name == sessions[i].name);
        }
    }
    assert forall|j: int| 0 <= j < answer_live(raw).len() implies is_shown(
        sessions,
        (#[trigger] answer_live(raw)[j]).name,
    ) by {
        assert(live[j].name == answered[j].name);
        let i = choose|i: int| 0 <= i < sessions.len() && #[trigger] sessions[i].name == live[j].name;
        assert(sessions[i].name == answered[j].name);
    }
}

/// Lines say one after the other what they say: those of two lists together are
/// what the first lists, and then what the second does.
pub proof fn lines_add_up(a: Seq<Seq<char>>, b: Seq<Seq<char>>)
    ensures
        live_lines(a + b) == live_lines(a) + live_lines(b),
        dir_lines(a + b) == dir_lines(a) + dir_lines(b),
    decreases b.len(),
{
    if b.len() == 0 {
        assert(a + b =~= a);
        assert(live_lines(a) + live_lines(b) =~= live_lines(a));
        assert(dir_lines(a) + dir_lines(b) =~= dir_lines(a));
    } else {
        lines_add_up(a, b.drop_last());
        assert((a + b).drop_last() =~= a + b.drop_last());
        assert((a + b).last() == b.last());
        assert(live_lines(a + b) =~= live_lines(a) + live_lines(b));
        assert(dir_lines(a + b) =~= dir_lines(a) + dir_lines(b));
    }
}

/// A line of three fields lists the session of the first, created at the time
/// of the second and last active at that of the third. A line with fewer than
/// two bars lists none.
pub proof fn a_line_lists_one_session(name: Seq<char>, created: Seq<char>, activity: Seq<char>)
    requires
        !name.contains('|'),
        !created.contains('|'),
    ensures
        live_lines(seq![name + seq!['|'] + created + seq!['|'] + activity]) == seq![
            LiveLineView {
                name,
                created_ts: timestamp(created),
                activity_ts: timestamp(activity),
            },
        ],
        live_lines(seq![name]).len() == 0,
        live_lines(seq![name + seq!['|'] + created]).len() == 0,
{
    let rest = created + seq!['|'] + activity;
    let line = name + seq!['|'] + created + seq!['|'] + activity;
    assert(line =~= name + seq!['|'] + rest);
    text::splitting_undoes_joining(name, '|', rest);
    text::splitting_undoes_joining(created, '|', activity);
    text::splitting_undoes_joining(name, '|', created);
    text::splitting_is_at_the_first(name, '|');
    text::splitting_is_at_the_first(created, '|');
    lemma_not_split(name, '|');
    lemma_not_split(created, '|');
    let empty: Seq<Seq<char>> = Seq::empty();
    assert(seq![line].drop_last() =~= empty);
    assert(seq![name].drop_last() =~= empty);
    assert(seq![name + seq!['|'] + created].drop_last() =~= empty);
    assert(live_lines(empty) =~= Seq::<LiveLineView>::empty());
    assert(seq![line].last() == line);
    assert(live_lines(seq![line]) =~= seq![
        LiveLineView { name, created_ts: timestamp(created), activity_ts: timestamp(activity) },
    ]);
}

/// A text without the separator is not split.
proof fn lemma_not_split(s: Seq<char>, c: char)
    requires
        !s.contains(c),
    ensures
        text::split_once(s, c) is None,
{
    text::splitting_is_at_the_first(s, c);
    if let Some((head, tail)) = text::split_once(s, c) {
        assert(s[head.len() as int] == c);
        assert(s.contains(s[head.len() as int]));
    }
}

/// A line of two fields gives the directory, which may hold bars, of the session
/// that the first names. A line without a bar gives none.
pub proof fn a_line_gives_one_directory(name: Seq<char>, dir: Seq<char>)
    requires
        !name.contains('|'),
    ensures
        dir_lines(seq![name + seq!['|'] + dir]) == seq![(name, dir)],
        dir_lines(seq![name]).len() == 0,
{
    let line = name + seq!['|'] + dir;
    text::splitting_undoes_joining(name, '|', dir);
    lemma_not_split(name, '|');
    let empty: Seq<Seq<char>> = Seq::empty();
    assert(seq![line].drop_last() =~= empty);
    assert(seq![name].drop_last() =~= empty);
    assert(dir_lines(empty) =~= Seq::<(Seq<char>, Seq<char>)>::empty());
    assert(seq![line].last() == line);
    assert(dir_lines(seq![line]) =~= seq![(name, dir)]);
}

/// The answer lists the sessions before the line `===` and the directories
/// behind it. Without such a line it lists sessions only.
pub proof fn the_answer_has_two_parts(
    raw: Seq<char>,
    above: Seq<Seq<char>>,
    below: Seq<Seq<char>>,
)
    requires
        !above.contains("==="@),
    ensures
        lines::lines(raw) == above.push("==="@) + below ==> answer_live(raw) == live_lines(above)
            && answer_dirs(raw) == dir_lines(below),
        lines::lines(raw) == above ==> answer_live(raw) == live_lines(above) && answer_dirs(
            raw,
        ).len() == 0,
{
    let all = lines::lines(raw);
    let n = above.len() as int;
    assert forall|j: int| 0 <= j < n implies above[j] != "==="@ by {
        assert(above.contains(above[j]));
    }
    if all == above.push("==="@) + below {
        assert forall|j: int| 0 <= j < n implies all[j] != "==="@ by {
            assert(all[j] == above[j]);
        }
        names::lemma_first_place(all, "==="@, n);
        assert(all.take(n) =~= above);
        assert(all.skip(n) =~= seq!["==="@] + below);
        reveal_strlit("===");
        assert(!("==="@).contains('|'));
        a_line_gives_one_directory("==="@, Seq::empty());
        lines_add_up(seq!["==="@], below);
        assert(dir_lines(seq!["==="@]) + dir_lines(below) =~= dir_lines(below));
    }
    if all == above {
        names::lemma_first_place(all, "==="@, n);
        assert(all.take(n) =~= above);
        assert(all.skip(n) =~= Seq::empty());
    }
}

/// A field that writes a number is the time of that second, before the epoch
/// where it has a minus; a number that is too large, and anything else, is none.
pub proof fn fields_write_seconds(field: Seq<char>, n: nat)
    ensures
        n <= i64::MAX ==> timestamp(numbers::decimal(n)) == n,
        n <= i64::MAX ==> timestamp(seq!['-'] + numbers::decimal(n)) == -n,
        n > i64::MAX ==> timestamp(numbers::decimal(n)) == 0,
        (exists|i: int|
            0 < i < field.len() && !numbers::is_digit(#[trigger] field[i])) ==> timestamp(field)
            == 0,
        field.len() > 0 && !numbers::is_digit(field[0]) && field[0] != '+' && field[0] != '-'
            ==> timestamp(field) == 0,
        field.len() == 0 ==> timestamp(field) == 0,
{
    numbers::reading_undoes_printing(n);
    numbers::digits_count_by_their_place(numbers::decimal(n), Seq::empty(), '0');
    if exists|i: int| 0 < i < field.len() && !numbers::is_digit(#[trigger] field[i]) {
        let i = choose|i: int| 0 < i < field.len() && !numbers::is_digit(#[trigger] field[i]);
        assert(field.skip(1)[i - 1] == field[i]);
        assert(!numbers::all_digits(field));
        assert(!numbers::all_digits(field.skip(1)));
    }
}

}
