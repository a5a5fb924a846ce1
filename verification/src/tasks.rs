//! Carrying out what the user decided: the commands for the host, and the
//! changes of the configuration and of the state.
use vstd::prelude::*;
use vstd::string::*;
use crate::app;
use crate::app::{Action, App, AppView, PromptView};
use crate::config;
use crate::config::{Config, ConfigView};
use crate::json;
use crate::moving;
use crate::numbers;
use crate::probe;
use crate::remote;
use crate::remote::{Remote, RemoteView};
use crate::ssh;
use crate::ssh::{Session, SessionView};
use crate::text;

verus! {

// --- Fetching the sessions ---

/// The names and directories of a list of sessions.
pub open spec fn name_dirs(sessions: Seq<SessionView>) -> Seq<(Seq<char>, Seq<char>)> {
    sessions.map_values(|s: SessionView| (s.name, s.dir))
}

/// The host's answer to the command that lists the running sessions; nothing
/// where the command failed.
pub open spec fn answer_text(answer: Option<&str>) -> Seq<char> {
    match answer {
        Some(raw) => raw@,
        None => Seq::empty(),
    }
}

/// All sessions: what the host answered to [`Remote::fetch_command`] merged
/// with those that the configuration names. Each of them is put back into the
/// configuration.
pub fn fetch_and_persist(remote: &Remote, cfg: &mut Config, answer: Option<&str>) -> (r: Vec<
    Session,
>)
    requires
        old(cfg)@.writable() || probe::answer_live(answer_text(answer)).len() == 0,
    ensures
        probe::is_merge_of(ssh::session_views(r@), answer_text(answer), old(cfg)@.entries()),
        final(cfg)@ == old(cfg)@.upsert_all(name_dirs(ssh::session_views(r@))),
{
    let entries = cfg.entries();
    let sessions = remote.fetch_sessions(answer, &entries);
    let ghost before = cfg@;
    let ghost all = ssh::session_views(sessions@);
    let ghost pairs = name_dirs(all);
    proof {
        if !before.writable() {
            probe::merging_nothing(all, answer_text(answer));
        }
    }
    let mut i: usize = 0;
    assert(pairs.take(0) =~= Seq::empty());
    while i < sessions.len()
        invariant
            i <= sessions.len(),
            all == ssh::session_views(sessions@),
            pairs == name_dirs(all),
            cfg@ == before.upsert_all(pairs.take(i as int)),
            sessions.len() > 0 ==> cfg@.writable(),
        decreases sessions.len() - i,
    {
        assert(all[i as int] == sessions@[i as int]@);
        assert(pairs.take(i + 1).drop_last() =~= pairs.take(i as int));
        assert(pairs.take(i + 1).last() == (sessions@[i as int].name@, sessions@[i as int].dir@));
        proof {
            lemma_stays_writable(cfg@, sessions@[i as int].name@, sessions@[i as int].dir@);
        }
        cfg.upsert(sessions[i].name.as_str(), sessions[i].dir.as_str());
        i += 1;
    }
    assert(pairs.take(i as int) =~= pairs);
    sessions
}

/// A configuration that sessions can be put into stays one.
proof fn lemma_stays_writable(cfg: ConfigView, name: Seq<char>, dir: Seq<char>)
    ensures
        cfg.upsert(name, dir).writable(),
        cfg.writable() ==> cfg.remove(name).writable(),
{
    let list = match cfg.host_members() {
        Some(list) => list,
        None => Seq::empty(),
    };
    json::lemma_put(
        cfg.root,
        cfg.host,
        json::Json::Object(config::upserted(list, name, dir)),
    );
    json::lemma_put(cfg.root, cfg.host, json::Json::Object(json::take_out(list, name)));
}

impl AppView {
    /// The state with the sessions replaced, without a search, attaching.
    pub open spec fn refreshed(self, sessions: Seq<SessionView>) -> AppView {
        AppView { sessions, search: Seq::empty(), action: Action::Attach, ..self }.rebuilt()
    }
}

/// Shows the sessions that were fetched, and starts over: without a search,
/// attaching.
pub fn refresh(app: &mut App, sessions: Vec<Session>)
    ensures
        final(app)@ == old(app)@.refreshed(ssh::session_views(sessions@)),
        final(app)@.well_formed(),
        final(app)@.in_range(),
{
    app.set_sessions(sessions);
    app.search = String::new();
    app.action = Action::Attach;
    assert(app@ =~= old(app)@.refreshed(ssh::session_views(sessions@)));
}

// --- Deleting ---

/// The first session of a list with the given name.
pub open spec fn first_named(sessions: Seq<SessionView>, name: Seq<char>) -> Option<SessionView>
    decreases sessions.len(),
{
    if sessions.len() == 0 {
        None
    } else if sessions[0].name == name {
        Some(sessions[0])
    } else {
        first_named(sessions.drop_first(), name)
    }
}

/// Whether a session with the given name runs.
pub open spec fn is_running(sessions: Seq<SessionView>, name: Seq<char>) -> bool {
    exists|i: int|
        0 <= i < sessions.len() && #[trigger] sessions[i].name == name && sessions[i].running
}

/// The names of a list whose sessions run, in order.
pub open spec fn running_names(sessions: Seq<SessionView>, names: Seq<Seq<char>>) -> Seq<Seq<char>>
    decreases names.len(),
{
    if names.len() == 0 {
        Seq::empty()
    } else {
        let above = running_names(sessions, names.drop_last());
        if is_running(sessions, names.last()) {
            above.push(names.last())
        } else {
            above
        }
    }
}

/// What is shown while `count` sessions are deleted.
pub open spec fn deleting_text(count: nat) -> Seq<char> {
    "Deleting "@ + numbers::decimal(count) + "…"@
}

impl ConfigView {
    /// The configuration without the sessions of a list.
    pub open spec fn remove_all(self, names: Seq<Seq<char>>) -> ConfigView
        decreases names.len(),
    {
        if names.len() == 0 {
            self
        } else {
            self.remove_all(names.drop_last()).remove(names.last())
        }
    }
}

/// Closes the prompt and says that the named sessions are being deleted.
pub fn begin_delete(app: &mut App, names: &[String])
    ensures
        final(app)@ == (AppView {
            prompt: PromptView::Closed,
            status: Some(deleting_text(names@.len())),
            ..old(app)@
        }),
{
    app.cancel_prompt();
    let mut status = "Deleting ".to_string();
    status.append(numbers::count_text(names.len()).as_str());
    status.append("…");
    app.status = Some(status);
}

/// Whether a session with the given name runs.
fn runs(app: &App, name: &str) -> (r: bool)
    ensures
        r == is_running(app@.sessions, name@),
{
    let mut i: usize = 0;
    while i < app.sessions.len()
        invariant
            i <= app.sessions.len(),
            forall|j: int|
                0 <= j < i ==> !(#[trigger] app@.sessions[j].name == name@
                    && app@.sessions[j].running),
        decreases app.sessions.len() - i,
    {
        assert(app@.sessions[i as int] == app.sessions@[i as int]@);
        if text::same_text(app.sessions[i].name.as_str(), name) && app.sessions[i].running {
            assert(app@.sessions[i as int].name == name@);
            return true;
        }
        i += 1;
    }
    false
}

/// Deletes the named sessions: takes them out of the configuration and picks
/// nothing any more. Returns the command that ends those of them that run.
pub fn exec_delete(app: &mut App, remote: &Remote, cfg: &mut Config, names: &[String]) -> (r:
    Option<String>)
    ensures
        final(app)@ == (AppView {
            prompt: PromptView::Closed,
            picked: Seq::empty(),
            status: None,
            ..old(app)@
        }),
        final(cfg)@ == old(cfg)@.remove_all(text::texts(names@)),
        ({
            let running = running_names(old(app)@.sessions, text::texts(names@));
            match r {
                Some(command) => running.len() > 0 && command@ == remote@.kill_commands(running),
                None => running.len() == 0,
            }
        }),
{
    app.cancel_prompt();
    app.status = None;
    let ghost all = text::texts(names@);
    let ghost sessions = app@.sessions;
    let ghost before = cfg@;
    let mut running: Vec<String> = Vec::new();
    let mut i: usize = 0;
    assert(text::texts(running@) =~= running_names(sessions, all.take(0)));
    assert(all.take(0) =~= Seq::empty());
    while i < names.len()
        invariant
            i <= names@.len(),
            all == text::texts(names@),
            sessions == app@.sessions,
            text::texts(running@) == running_names(sessions, all.take(i as int)),
            cfg@ == before.remove_all(all.take(i as int)),
        decreases names.len() - i,
    {
        assert(all.take(i + 1).drop_last() =~= all.take(i as int));
        assert(all.take(i + 1).last() == names@[i as int]@);
        let ghost above = text::texts(running@);
        if runs(app, names[i].as_str()) {
            running.push(names[i].clone());
            assert(text::texts(running@) =~= above.push(names@[i as int]@));
        }
        cfg.remove(names[i].as_str());
        i += 1;
    }
    assert(all.take(i as int) =~= all);
    app.clear_picked();
    let r = remote.kill_sessions(&running);
    assert(text::texts(running@).len() == running@.len());
    r
}

// --- Renaming and moving ---

impl ConfigView {
    /// The configuration with the session `from` under the name `to`, where
    /// there is such a session: it keeps its directory.
    pub open spec fn relabeled(
        self,
        sessions: Seq<SessionView>,
        from: Seq<char>,
        to: Seq<char>,
    ) -> ConfigView {
        match first_named(sessions, from) {
            Some(s) => self.remove(from).upsert(to, s.dir),
            None => self,
        }
    }

    /// The configuration with the sessions of a list moved to a project, in
    /// turn. A session that is there already stays.
    pub open spec fn moved_all(
        self,
        sessions: Seq<SessionView>,
        names: Seq<Seq<char>>,
        target: Seq<char>,
    ) -> ConfigView
        decreases names.len(),
    {
        if names.len() == 0 {
            self
        } else {
            let above = self.moved_all(sessions, names.drop_last(), target);
            let from = names.last();
            let to = moving::moved(from, target);
            if to == from {
                above
            } else {
                above.relabeled(sessions, from, to)
            }
        }
    }
}

impl RemoteView {
    /// The command that renames a session, where it runs.
    pub open spec fn relabel_commands(
        self,
        sessions: Seq<SessionView>,
        from: Seq<char>,
        to: Seq<char>,
    ) -> Seq<Seq<char>> {
        match first_named(sessions, from) {
            Some(s) if s.running => seq![self.rename_command(from, to)],
            _ => Seq::empty(),
        }
    }

    /// The commands that move the sessions of a list to a project.
    pub open spec fn move_commands(
        self,
        sessions: Seq<SessionView>,
        names: Seq<Seq<char>>,
        target: Seq<char>,
    ) -> Seq<Seq<char>>
        decreases names.len(),
    {
        if names.len() == 0 {
            Seq::empty()
        } else {
            let above = self.move_commands(sessions, names.drop_last(), target);
            let from = names.last();
            let to = moving::moved(from, target);
            if to == from {
                above
            } else {
                above + self.relabel_commands(sessions, from, to)
            }
        }
    }
}

/// Where the first session with the given name stands.
fn find_named(app: &App, name: &str) -> (r: Option<usize>)
    ensures
        match r {
            Some(i) => i < app.sessions.len() && first_named(app@.sessions, name@) == Some(
                app.sessions@[i as int]@,
            ),
            None => first_named(app@.sessions, name@) is None,
        },
{
    let mut i: usize = 0;
    assert(app@.sessions.skip(0) =~= app@.sessions);
    while i < app.sessions.len()
        invariant
            i <= app.sessions.len(),
            first_named(app@.sessions, name@) == first_named(app@.sessions.skip(i as int), name@),
        decreases app.sessions.len() - i,
    {
        assert(app@.sessions.skip(i as int)[0] == app.sessions@[i as int]@);
        if text::same_text(app.sessions[i].name.as_str(), name) {
            return Some(i);
        }
        assert(app@.sessions.skip(i as int).drop_first() =~= app@.sessions.skip(i + 1));
        i += 1;
    }
    None
}

/// Whether moving the sessions of a list to a project gives one of them another
/// name.
pub open spec fn moves_any(
    sessions: Seq<SessionView>,
    names: Seq<Seq<char>>,
    target: Seq<char>,
) -> bool {
    exists|i: int|
        0 <= i < names.len() && moving::moved(#[trigger] names[i], target) != names[i]
            && first_named(sessions, names[i]) is Some
}

/// Puts the session `from` under the name `to` into the configuration, and
/// adds the command that renames it, where it runs.
fn relabel(
    app: &App,
    remote: &Remote,
    cfg: &mut Config,
    from: &str,
    to: &str,
    commands: &mut Vec<String>,
)
    requires
        first_named(app@.sessions, from@) is Some ==> old(cfg)@.writable(),
    ensures
        final(cfg)@ == old(cfg)@.relabeled(app@.sessions, from@, to@),
        old(cfg)@.writable() ==> final(cfg)@.writable(),
        text::texts(final(commands)@) == text::texts(old(commands)@) + remote@.relabel_commands(
            app@.sessions,
            from@,
            to@,
        ),
{
    let ghost before = text::texts(commands@);
    if let Some(i) = find_named(app, from) {
        if app.sessions[i].running {
            let command = remote.rename_session(from, to);
            commands.push(command);
            assert(text::texts(commands@) =~= before + seq![command@]);
        }
        proof {
            lemma_stays_writable(cfg@, from@, app.sessions@[i as int].dir@);
            lemma_stays_writable(cfg@.remove(from@), to@, app.sessions@[i as int].dir@);
        }
        cfg.remove(from);
        cfg.upsert(to, app.sessions[i].dir.as_str());
    }
    assert(text::texts(commands@) =~= before + remote@.relabel_commands(
        app@.sessions,
        from@,
        to@,
    ));
}

/// Renames a session: it gets another name in the configuration. Returns the
/// commands for the host, or none at all where the new name is empty or the
/// old one: then nothing happens but that the prompt is closed.
pub fn exec_rename(app: &mut App, remote: &Remote, cfg: &mut Config, from: &str, to: &str) -> (r:
    Option<Vec<String>>)
    requires
        to@.len() > 0 && to@ != from@ && first_named(old(app)@.sessions, from@) is Some ==> old(
            cfg,
        )@.writable(),
    ensures
        final(app)@ == old(app)@.with_prompt(PromptView::Closed),
        match r {
            Some(commands) => {
                &&& to@.len() > 0 && to@ != from@
                &&& text::texts(commands@) == remote@.relabel_commands(
                    old(app)@.sessions,
                    from@,
                    to@,
                )
                &&& final(cfg)@ == old(cfg)@.relabeled(old(app)@.sessions, from@, to@)
            },
            None => (to@.len() == 0 || to@ == from@) && final(cfg)@ == old(cfg)@,
        },
{
    app.cancel_prompt();
    if to.is_empty() || text::same_text(to, from) {
        return None;
    }
    let mut commands: Vec<String> = Vec::new();
    relabel(app, remote, cfg, from, to, &mut commands);
    assert(text::texts(commands@) =~= remote@.relabel_commands(app@.sessions, from@, to@));
    Some(commands)
}

/// Moves the named sessions to a project: each gets another name in the
/// configuration, and none stays picked. Returns the commands for the host, or
/// none at all where the target is blank: then nothing happens but that the
/// prompt is closed.
pub fn exec_move(
    app: &mut App,
    remote: &Remote,
    cfg: &mut Config,
    names: &[String],
    target: &str,
) -> (r: Option<Vec<String>>)
    requires
        text::trimmed(target@).len() > 0 && moves_any(
            old(app)@.sessions,
            text::texts(names@),
            target@,
        ) ==> old(cfg)@.writable(),
    ensures
        match r {
            Some(commands) => {
                &&& text::trimmed(target@).len() > 0
                &&& text::texts(commands@) == remote@.move_commands(
                    old(app)@.sessions,
                    text::texts(names@),
                    target@,
                )
                &&& final(cfg)@ == old(cfg)@.moved_all(
                    old(app)@.sessions,
                    text::texts(names@),
                    target@,
                )
                &&& final(app)@ == old(app)@.with_prompt(PromptView::Closed).clear_picked()
            },
            None => {
                &&& text::trimmed(target@).len() == 0
                &&& final(cfg)@ == old(cfg)@
                &&& final(app)@ == old(app)@.with_prompt(PromptView::Closed)
            },
        },
{
    app.cancel_prompt();
    if target.trim().is_empty() {
        return None;
    }
    let ghost all = text::texts(names@);
    let ghost before = cfg@;
    let mut commands: Vec<String> = Vec::new();
    let mut i: usize = 0;
    assert(all.take(0) =~= Seq::empty());
    assert(text::texts(commands@) =~= remote@.move_commands(app@.sessions, all.take(0), target@));
    while i < names.len()
        invariant
            i <= names@.len(),
            all == text::texts(names@),
            app@ == old(app)@.with_prompt(PromptView::Closed),
            moves_any(app@.sessions, all, target@) ==> cfg@.writable(),
            cfg@ == before.moved_all(app@.sessions, all.take(i as int), target@),
            text::texts(commands@) == remote@.move_commands(
                app@.sessions,
                all.take(i as int),
                target@,
            ),
        decreases names.len() - i,
    {
        assert(all.take(i + 1).drop_last() =~= all.take(i as int));
        assert(all.take(i + 1).last() == names@[i as int]@);
        let from = names[i].as_str();
        let to = moving::moved_name(from, target);
        if !text::same_text(to.as_str(), from) {
            assert(all[i as int] == from@);
            relabel(app, remote, cfg, from, to.as_str(), &mut commands);
        }
        i += 1;
    }
    assert(all.take(i as int) =~= all);
    app.clear_picked();
    Some(commands)
}

/// Notes a new session in the configuration before it starts.
pub fn note_new(cfg: &mut Config, name: &str)
    requires
        old(cfg)@.writable(),
    ensures
        final(cfg)@ == old(cfg)@.upsert(name@, Seq::empty()),
{
    let nothing = String::new();
    cfg.upsert(name, nothing.as_str());
}

// --- Laws ---

/// Every session that was fetched is remembered, in the directory it is in
/// where that is known and each session was fetched once. No other session is
/// forgotten or changed.
pub proof fn fetched_sessions_are_remembered(
    cfg: ConfigView,
    list: Seq<(Seq<char>, Seq<char>)>,
    name: Seq<char>,
)
    requires
        cfg.writable(),
    ensures
        cfg.upsert_all(list).writable(),
        probe::names_of(list).contains(name) ==> cfg.upsert_all(list).dir_of(name) is Some,
        !probe::names_of(list).contains(name) ==> cfg.upsert_all(list).dir_of(name) == cfg.dir_of(
            name,
        ),
        probe::names_of(list).no_duplicates() ==> forall|i: int|
            0 <= i < list.len() && (#[trigger] list[i]).1.len() > 0 ==> cfg.upsert_all(list).dir_of(
                list[i].0,
            ) == Some(list[i].1),
    decreases list.len(),
{
    if list.len() > 0 {
        let rest = list.drop_last();
        let (last, dir) = list.last();
        let above = cfg.upsert_all(rest);
        fetched_sessions_are_remembered(cfg, rest, name);
        lemma_stays_writable(above, last, dir);
        config::upserting_sets_one_session(above, last, dir, name, cfg.host);
        let names = probe::names_of(list);
        let before = probe::names_of(rest);
        assert(names =~= before.push(last));
        if before.contains(name) {
            let k = choose|k: int| 0 <= k < before.len() && before[k] == name;
            assert(names[k] == name);
        }
        if names.contains(name) && name != last {
            let k = choose|k: int| 0 <= k < names.len() && names[k] == name;
            assert(before[k] == name);
        }
        assert(names[before.len() as int] == last);
        if names.no_duplicates() {
            assert forall|a: int, b: int| 0 <= a < b < before.len() implies before[a]
                != before[b] by {
                assert(names[a] == before[a] && names[b] == before[b]);
            }
            assert forall|i: int| 0 <= i < list.len() && (#[trigger] list[i]).1.len()
                > 0 implies cfg.upsert_all(list).dir_of(list[i].0) == Some(list[i].1) by {
                if i < rest.len() {
                    assert(rest[i] == list[i]);
                    assert(names[i] == list[i].0 && names[i] != names[before.len() as int]);
                    config::upserting_sets_one_session(above, last, dir, list[i].0, cfg.host);
                }
            }
        }
    }
}

/// Deleting forgets exactly the named sessions.
pub proof fn deleting_forgets_the_named(
    cfg: ConfigView,
    names: Seq<Seq<char>>,
    name: Seq<char>,
)
    requires
        cfg.valid(),
    ensures
        cfg.remove_all(names).valid(),
        names.contains(name) ==> cfg.remove_all(names).dir_of(name) is None,
        !names.contains(name) ==> cfg.remove_all(names).dir_of(name) == cfg.dir_of(name),
    decreases names.len(),
{
    if names.len() > 0 {
        let rest = names.drop_last();
        let above = cfg.remove_all(rest);
        deleting_forgets_the_named(cfg, rest, name);
        config::changes_keep_validity(above, names.last(), Seq::empty());
        config::removing_takes_one_session(above, names.last(), name, cfg.host);
        if rest.contains(name) {
            let k = choose|k: int| 0 <= k < rest.len() && rest[k] == name;
            assert(names[k] == name);
        }
        if names.contains(name) && name != names.last() {
            let k = choose|k: int| 0 <= k < names.len() && names[k] == name;
            assert(rest[k] == name);
        }
        assert(names[names.len() - 1] == names.last());
    }
}

/// A session that gets another name keeps its directory, and the old name is
/// forgotten. No other session changes.
pub proof fn relabeling_keeps_the_directory(
    cfg: ConfigView,
    sessions: Seq<SessionView>,
    from: Seq<char>,
    to: Seq<char>,
    other: Seq<char>,
)
    requires
        cfg.valid(),
        cfg.writable(),
        from != to,
        other != from,
        other != to,
        first_named(sessions, from) is Some,
    ensures
        ({
            let dir = first_named(sessions, from)->0.dir;
            let after = cfg.relabeled(sessions, from, to);
            &&& after.valid()
            &&& after.writable()
            &&& after.dir_of(from) is None
            &&& after.dir_of(to) is Some
            &&& dir.len() > 0 ==> after.dir_of(to) == Some(dir)
            &&& dir.len() == 0 && cfg.dir_of(to) is None ==> after.dir_of(to) == Some(dir)
            &&& after.dir_of(other) == cfg.dir_of(other)
        }),
{
    let dir = first_named(sessions, from)->0.dir;
    let gone = cfg.remove(from);
    config::changes_keep_validity(cfg, from, dir);
    config::changes_keep_validity(gone, to, dir);
    config::removing_takes_one_session(cfg, from, to, cfg.host);
    config::removing_takes_one_session(cfg, from, other, cfg.host);
    config::upserting_sets_one_session(gone, to, dir, from, cfg.host);
    config::upserting_sets_one_session(gone, to, dir, other, cfg.host);
    if dir.len() == 0 {
        assert(dir =~= Seq::empty());
    }
}

/// Whether `at` lists, from first to last, the places below `len` that are
/// wanted, and no others.
pub open spec fn lists_places(at: Seq<int>, len: int, wanted: spec_fn(int) -> bool) -> bool {
    &&& forall|k: int| 0 <= k < at.len() ==> 0 <= #[trigger] at[k] < len && wanted(at[k])
    &&& forall|i: int| 0 <= i < len && wanted(i) ==> #[trigger] at.contains(i)
    &&& forall|a: int, b: int| 0 <= a < b < at.len() ==> #[trigger] at[a] < #[trigger] at[b]
}

/// The place `len` joins the list of wanted places where it is wanted.
proof fn lemma_one_more_place(at: Seq<int>, len: int, wanted: spec_fn(int) -> bool)
    requires
        0 <= len,
        lists_places(at, len, wanted),
    ensures
        wanted(len) ==> lists_places(at.push(len), len + 1, wanted),
        !wanted(len) ==> lists_places(at, len + 1, wanted),
{
    let longer = at.push(len);
    if wanted(len) {
        assert forall|i: int| 0 <= i < len + 1 && wanted(i) implies #[trigger] longer.contains(
            i,
        ) by {
            if i < len {
                assert(at.contains(i));
                let k = choose|k: int| 0 <= k < at.len() && at[k] == i;
                assert(longer[k] == i);
            } else {
                assert(longer[at.len() as int] == i);
            }
        }
    }
}

/// The places of a list of names whose sessions run.
pub open spec fn runs_at(
    sessions: Seq<SessionView>,
    names: Seq<Seq<char>>,
) -> spec_fn(int) -> bool {
    |i: int|
        exists|j: int|
            0 <= j < sessions.len() && #[trigger] sessions[j].name == names[i]
                && sessions[j].running
}

/// What is ended by a deletion is every named session that runs, and nothing
/// else, in the order in which they were named.
pub proof fn deleting_ends_what_runs(sessions: Seq<SessionView>, names: Seq<Seq<char>>)
    ensures
        forall|name: Seq<char>| #[trigger]
            running_names(sessions, names).contains(name) <==> names.contains(name) && exists|
                j: int,
            |
                0 <= j < sessions.len() && #[trigger] sessions[j].name == name
                    && sessions[j].running,
        exists|at: Seq<int>| #[trigger]
            lists_places(at, names.len() as int, runs_at(sessions, names))
                && running_names(sessions, names) == at.map_values(|i: int| names[i]),
{
    let running = running_names(sessions, names);
    let wanted = runs_at(sessions, names);
    let at = lemma_running_places(sessions, names, names.len() as int);
    assert(names.take(names.len() as int) =~= names);
    assert(running =~= at.map_values(|i: int| names[i]));
    assert forall|name: Seq<char>| #[trigger] running.contains(name) <==> names.contains(name)
        && is_running(sessions, name) by {
        if running.contains(name) {
            let k = choose|k: int| 0 <= k < running.len() && running[k] == name;
            assert(names[at[k]] == name);
            assert(wanted(at[k]));
        }
        if names.contains(name) && is_running(sessions, name) {
            let i = choose|i: int| 0 <= i < names.len() && names[i] == name;
            assert(wanted(i));
            assert(at.contains(i));
            let k = choose|k: int| 0 <= k < at.len() && at[k] == i;
            assert(running[k] == name);
        }
    }
}

/// The places of the running sessions among the first `n` names.
proof fn lemma_running_places(
    sessions: Seq<SessionView>,
    names: Seq<Seq<char>>,
    n: int,
) -> (at: Seq<int>)
    requires
        0 <= n <= names.len(),
    ensures
        lists_places(at, n, runs_at(sessions, names)),
        running_names(sessions, names.take(n)) == at.map_values(|i: int| names[i]),
    decreases n,
{
    let wanted = runs_at(sessions, names);
    if n == 0 {
        let at: Seq<int> = Seq::empty();
        assert(running_names(sessions, names.take(0)) =~= at.map_values(|i: int| names[i]));
        at
    } else {
        let above = lemma_running_places(sessions, names, n - 1);
        lemma_one_more_place(above, n - 1, wanted);
        assert(names.take(n).drop_last() =~= names.take(n - 1));
        assert(names.take(n).last() == names[n - 1]);
        let at = if wanted(n - 1) {
            above.push(n - 1)
        } else {
            above
        };
        assert(running_names(sessions, names.take(n)) =~= at.map_values(|i: int| names[i]));
        at
    }
}

/// Whether the first session of a name runs.
pub open spec fn first_runs(sessions: Seq<SessionView>, name: Seq<char>) -> bool {
    exists|j: int|
        0 <= j < sessions.len() && #[trigger] sessions[j].name == name && sessions[j].running
            && forall|k: int| 0 <= k < j ==> (#[trigger] sessions[k]).name != name
}

/// The session that is found by a name is the first that has it; none is found
/// where none has it.
pub proof fn the_first_of_a_name_is_found(sessions: Seq<SessionView>, name: Seq<char>, j: int)
    ensures
        0 <= j < sessions.len() && sessions[j].name == name && (forall|k: int|
            0 <= k < j ==> (#[trigger] sessions[k]).name != name) ==> first_named(sessions, name)
            == Some(sessions[j]),
        (forall|k: int| 0 <= k < sessions.len() ==> (#[trigger] sessions[k]).name != name)
            ==> first_named(sessions, name) is None,
        (first_named(sessions, name) matches Some(s) && s.running) <==> first_runs(sessions, name),
{
    if forall|k: int| 0 <= k < sessions.len() ==> (#[trigger] sessions[k]).name != name {
        lemma_first_named(sessions, name);
    }
    if 0 <= j < sessions.len() && sessions[j].name == name && (forall|k: int|
        0 <= k < j ==> (#[trigger] sessions[k]).name != name) {
        lemma_first_named_at(sessions, name, j);
    }
    if first_named(sessions, name) is Some {
        let k = lemma_first_named_place(sessions, name);
        assert(sessions[k].name == name);
        if first_runs(sessions, name) {
            let m = choose|j: int|
                0 <= j < sessions.len() && #[trigger] sessions[j].name == name
                    && sessions[j].running && forall|k: int|
                    0 <= k < j ==> (#[trigger] sessions[k]).name != name;
            lemma_first_named_at(sessions, name, m);
        }
    } else if first_runs(sessions, name) {
        let m = choose|j: int|
            0 <= j < sessions.len() && #[trigger] sessions[j].name == name && sessions[j].running
                && forall|k: int| 0 <= k < j ==> (#[trigger] sessions[k]).name != name;
        lemma_first_named_at(sessions, name, m);
    }
}

/// The first session of a name is found.
proof fn lemma_first_named_at(sessions: Seq<SessionView>, name: Seq<char>, j: int)
    requires
        0 <= j < sessions.len(),
        sessions[j].name == name,
        forall|k: int| 0 <= k < j ==> (#[trigger] sessions[k]).name != name,
    ensures
        first_named(sessions, name) == Some(sessions[j]),
    decreases sessions.len(),
{
    if j > 0 {
        let rest = sessions.drop_first();
        assert(sessions[0].name != name);
        assert forall|k: int| 0 <= k < j - 1 implies (#[trigger] rest[k]).name != name by {
            assert(rest[k] == sessions[k + 1]);
        }
        lemma_first_named_at(rest, name, j - 1);
    }
}

/// Where the session stands that is found by a name.
proof fn lemma_first_named_place(sessions: Seq<SessionView>, name: Seq<char>) -> (j: int)
    requires
        first_named(sessions, name) is Some,
    ensures
        0 <= j < sessions.len(),
        sessions[j].name == name,
        first_named(sessions, name) == Some(sessions[j]),
        forall|k: int| 0 <= k < j ==> (#[trigger] sessions[k]).name != name,
    decreases sessions.len(),
{
    if sessions[0].name == name {
        0
    } else {
        let rest = sessions.drop_first();
        let j = lemma_first_named_place(rest, name);
        assert forall|k: int| 0 <= k < j + 1 implies (#[trigger] sessions[k]).name != name by {
            if k > 0 {
                assert(rest[k - 1] == sessions[k]);
            }
        }
        j + 1
    }
}

/// Renaming a session takes one command where it runs, which gives the session
/// of the old name the new one; where it does not run it takes none.
pub proof fn renaming_takes_one_command(
    remote: RemoteView,
    sessions: Seq<SessionView>,
    from: Seq<char>,
    to: Seq<char>,
)
    ensures
        first_runs(sessions, from) ==> remote.relabel_commands(sessions, from, to).len() == 1
            && remote::renames(
            remote.relabel_commands(sessions, from, to)[0],
            remote.rtmux,
            from,
            to,
        ),
        !first_runs(sessions, from) ==> remote.relabel_commands(sessions, from, to).len() == 0,
{
    the_first_of_a_name_is_found(sessions, from, 0);
    remote::commands_act_on_the_named_session(remote, from, from, to);
}

/// The places of a list of names whose sessions run, and get another name in the
/// target project.
pub open spec fn renamed_at(
    sessions: Seq<SessionView>,
    names: Seq<Seq<char>>,
    target: Seq<char>,
) -> spec_fn(int) -> bool {
    |i: int| moving::moved(names[i], target) != names[i] && first_runs(sessions, names[i])
}

/// Moving sessions to a project renames every one of them that runs and that
/// gets another name there, each by a command of its own and in the order in
/// which they were named. There is no other command.
pub proof fn moving_renames_every_running_session(
    remote: RemoteView,
    sessions: Seq<SessionView>,
    names: Seq<Seq<char>>,
    target: Seq<char>,
)
    ensures
        exists|at: Seq<int>| #[trigger]
            lists_places(at, names.len() as int, renamed_at(sessions, names, target)) && remote.move_commands(sessions, names, target).len() == at.len() && forall|k: int|
                0 <= k < at.len() ==> remote::renames(
                    #[trigger] remote.move_commands(sessions, names, target)[k],
                    remote.rtmux,
                    names[at[k]],
                    moving::moved(names[at[k]], target),
                ),
{
    let at = lemma_moving_places(remote, sessions, names, target, names.len() as int);
    assert(names.take(names.len() as int) =~= names);
}

/// The places of the sessions that moving renames, among the first `n` names.
proof fn lemma_moving_places(
    remote: RemoteView,
    sessions: Seq<SessionView>,
    names: Seq<Seq<char>>,
    target: Seq<char>,
    n: int,
) -> (at: Seq<int>)
    requires
        0 <= n <= names.len(),
    ensures
        lists_places(at, n, renamed_at(sessions, names, target)),
        remote.move_commands(sessions, names.take(n), target).len() == at.len(),
        forall|k: int|
            0 <= k < at.len() ==> remote::renames(
                #[trigger] remote.move_commands(sessions, names.take(n), target)[k],
                remote.rtmux,
                names[at[k]],
                moving::moved(names[at[k]], target),
            ),
    decreases n,
{
    let wanted = renamed_at(sessions, names, target);
    if n == 0 {
        Seq::empty()
    } else {
        let above = lemma_moving_places(remote, sessions, names, target, n - 1);
        let fewer = remote.move_commands(sessions, names.take(n - 1), target);
        lemma_one_more_place(above, n - 1, wanted);
        assert(names.take(n).drop_last() =~= names.take(n - 1));
        assert(names.take(n).last() == names[n - 1]);
        let from = names[n - 1];
        let to = moving::moved(from, target);
        renaming_takes_one_command(remote, sessions, from, to);
        let commands = remote.move_commands(sessions, names.take(n), target);
        let at = if wanted(n - 1) {
            above.push(n - 1)
        } else {
            above
        };
        assert forall|k: int| 0 <= k < at.len() implies remote::renames(
            #[trigger] commands[k],
            remote.rtmux,
            names[at[k]],
            moving::moved(names[at[k]], target),
        ) by {
            if k < above.len() {
                assert(commands[k] == fewer[k]);
                assert(at[k] == above[k]);
            }
        }
        at
    }
}

/// Whether moving gives the session of a name another one: there is such a
/// session, and it is not in the project already.
pub open spec fn gets_moved(
    sessions: Seq<SessionView>,
    name: Seq<char>,
    target: Seq<char>,
) -> bool {
    first_named(sessions, name) is Some && moving::moved(name, target) != name
}

/// Moving sessions to a project changes nothing that is remembered of a session
/// that neither moves nor has the new name of one that does.
pub proof fn moving_leaves_the_others(
    cfg: ConfigView,
    sessions: Seq<SessionView>,
    names: Seq<Seq<char>>,
    target: Seq<char>,
    other: Seq<char>,
)
    requires
        cfg.valid(),
        cfg.writable(),
    ensures
        cfg.moved_all(sessions, names, target).valid(),
        cfg.moved_all(sessions, names, target).writable(),
        (forall|i: int|
            0 <= i < names.len() && gets_moved(sessions, #[trigger] names[i], target) ==> names[i]
                != other && moving::moved(names[i], target) != other) ==> cfg.moved_all(
            sessions,
            names,
            target,
        ).dir_of(other) == cfg.dir_of(other),
    decreases names.len(),
{
    if names.len() > 0 {
        let rest = names.drop_last();
        let from = names.last();
        let to = moving::moved(from, target);
        let above = cfg.moved_all(sessions, rest, target);
        moving_leaves_the_others(cfg, sessions, rest, target, other);
        assert(from == names[names.len() - 1]);
        assert forall|i: int| 0 <= i < rest.len() implies rest[i] == names[i] by {}
        if gets_moved(sessions, from, target) {
            let spare = lemma_spare_name(from, to);
            relabeling_keeps_the_directory(above, sessions, from, to, spare);
            if other != from && other != to {
                relabeling_keeps_the_directory(above, sessions, from, to, other);
            }
        }
    }
}

/// There is a name besides two others.
proof fn lemma_spare_name(a: Seq<char>, b: Seq<char>) -> (spare: Seq<char>)
    ensures
        spare != a,
        spare != b,
{
    let spare = (a + b).push('x');
    assert(spare.len() > a.len() && spare.len() > b.len());
    spare
}

/// A session that moves to a project is no longer remembered under its old name,
/// unless one that moves gets that name; and it is remembered under its new one,
/// unless a session of that name moves on. Where no other one that moves gets
/// the new name too, it is remembered there with its directory.
pub proof fn moving_takes_every_session_along(
    cfg: ConfigView,
    sessions: Seq<SessionView>,
    names: Seq<Seq<char>>,
    target: Seq<char>,
    name: Seq<char>,
)
    requires
        cfg.valid(),
        cfg.writable(),
        names.contains(name),
        gets_moved(sessions, name, target),
    ensures
        ({
            let after = cfg.moved_all(sessions, names, target);
            let to = moving::moved(name, target);
            let dir = first_named(sessions, name)->0.dir;
            &&& (forall|i: int|
                0 <= i < names.len() && gets_moved(sessions, #[trigger] names[i], target)
                    ==> moving::moved(names[i], target) != name) ==> after.dir_of(name) is None
            &&& (forall|i: int|
                0 <= i < names.len() && gets_moved(sessions, #[trigger] names[i], target)
                    ==> names[i] != to) ==> after.dir_of(to) is Some
            &&& dir.len() > 0 && (forall|i: int|
                0 <= i < names.len() && gets_moved(sessions, #[trigger] names[i], target)
                    ==> names[i] != to && (moving::moved(names[i], target) == to ==> names[i]
                    == name)) ==> after.dir_of(to) == Some(dir)
        }),
    decreases names.len(),
{
    let rest = names.drop_last();
    let from = names.last();
    let new = moving::moved(from, target);
    let above = cfg.moved_all(sessions, rest, target);
    let to = moving::moved(name, target);
    moving_leaves_the_others(cfg, sessions, rest, target, name);
    assert(from == names[names.len() - 1]);
    assert forall|i: int| 0 <= i < rest.len() implies rest[i] == names[i] by {}
    if from == name {
        let spare = lemma_spare_name(from, new);
        relabeling_keeps_the_directory(above, sessions, from, new, spare);
    } else {
        let k = choose|k: int| 0 <= k < names.len() && names[k] == name;
        assert(rest[k] == name);
        moving_takes_every_session_along(cfg, sessions, rest, target, name);
        if gets_moved(sessions, from, target) {
            let spare = lemma_spare_name(from, new);
            relabeling_keeps_the_directory(above, sessions, from, new, spare);
            if name != new {
                relabeling_keeps_the_directory(above, sessions, from, new, name);
            }
            if to != from && to != new {
                relabeling_keeps_the_directory(above, sessions, from, new, to);
            }
        }
    }
}

/// Moving never touches a directory on the host: each of its commands renames
/// one of the sessions to its name in the other project.
pub proof fn moving_only_renames(
    remote: RemoteView,
    sessions: Seq<SessionView>,
    names: Seq<Seq<char>>,
    target: Seq<char>,
    k: int,
)
    requires
        0 <= k < remote.move_commands(sessions, names, target).len(),
    ensures
        exists|i: int|
            0 <= i < names.len() && remote.move_commands(sessions, names, target)[k]
                == remote.rename_command(#[trigger] names[i], moving::moved(names[i], target)),
    decreases names.len(),
{
    let rest = names.drop_last();
    let above = remote.move_commands(sessions, rest, target);
    if k < above.len() {
        moving_only_renames(remote, sessions, rest, target, k);
        let i = choose|i: int|
            0 <= i < rest.len() && above[k] == remote.rename_command(
                #[trigger] rest[i],
                moving::moved(rest[i], target),
            );
        assert(names[i] == rest[i]);
    } else {
        assert(names[names.len() - 1] == names.last());
    }
}

/// Sessions that do not run are moved and deleted without a command.
pub proof fn stopped_sessions_need_no_command(
    remote: RemoteView,
    sessions: Seq<SessionView>,
    names: Seq<Seq<char>>,
    target: Seq<char>,
)
    requires
        forall|i: int| 0 <= i < sessions.len() ==> !(#[trigger] sessions[i]).running,
    ensures
        remote.move_commands(sessions, names, target).len() == 0,
        running_names(sessions, names).len() == 0,
    decreases names.len(),
{
    if names.len() > 0 {
        stopped_sessions_need_no_command(remote, sessions, names.drop_last(), target);
        lemma_first_named(sessions, names.last());
    }
}

/// The first session of a name is a session of the list.
proof fn lemma_first_named(sessions: Seq<SessionView>, name: Seq<char>)
    ensures
        first_named(sessions, name) matches Some(s) ==> s.name == name && sessions.contains(s),
    decreases sessions.len(),
{
    if sessions.len() > 0 {
        if sessions[0].name != name {
            let rest = sessions.drop_first();
            lemma_first_named(rest, name);
            if let Some(s) = first_named(rest, name) {
                let k = choose|k: int| 0 <= k < rest.len() && rest[k] == s;
                assert(sessions[k + 1] == s);
            }
        }
    }
}

/// Fetching the sessions anew keeps the picked names and the open prompt. It
/// ends the search and goes back to attaching. The cursor stays where it is, or
/// on the last row where the list has become shorter.
pub proof fn picks_outlast_a_refresh(app: AppView, sessions: Seq<SessionView>)
    requires
        app.cursor >= 0,
    ensures
        app.refreshed(sessions).picked == app.picked,
        app.refreshed(sessions).prompt == app.prompt,
        app.refreshed(sessions).search.len() == 0,
        app.refreshed(sessions).action == Action::Attach,
        app.refreshed(sessions).sessions == sessions,
        app.refreshed(sessions).status == app.status,
        app.refreshed(sessions).well_formed(),
        app.cursor < app.refreshed(sessions).selectable.len() ==> app.refreshed(sessions).cursor
            == app.cursor,
        app.cursor >= app.refreshed(sessions).selectable.len() ==> app.refreshed(sessions).cursor
            == app.refreshed(sessions).selectable.len() - 1,
{
    app::rebuilding_is_well_formed(
        AppView { sessions, search: Seq::empty(), action: Action::Attach, ..app },
    );
}

/// Every session that was fetched is remembered from then on: under its name, in
/// the directory it is in where that is known, and where it is not known in the
/// one that was remembered. The sessions are fetched once each.
pub proof fn a_fetch_is_remembered(cfg: ConfigView, sessions: Seq<SessionView>, i: int)
    requires
        cfg.valid(),
        cfg.writable(),
        0 <= i < sessions.len(),
        forall|a: int, b: int|
            0 <= a < b < sessions.len() ==> (#[trigger] sessions[a]).name != (
            #[trigger] sessions[b]).name,
    ensures
        ({
            let after = cfg.upsert_all(name_dirs(sessions));
            &&& after.dir_of(sessions[i].name) is Some
            &&& sessions[i].dir.len() > 0 ==> after.dir_of(sessions[i].name) == Some(
                sessions[i].dir,
            )
            &&& sessions[i].dir.len() == 0 && cfg.dir_of(sessions[i].name) is Some ==> after.dir_of(
                sessions[i].name,
            ) == cfg.dir_of(sessions[i].name)
        }),
{
    let list = name_dirs(sessions);
    let names = probe::names_of(list);
    assert forall|k: int| 0 <= k < list.len() implies #[trigger] list[k] == (
        sessions[k].name,
        sessions[k].dir,
    ) && names[k] == sessions[k].name by {}
    assert(names[i] == sessions[i].name);
    assert forall|a: int, b: int| 0 <= a < b < names.len() implies names[a] != names[b] by {
        assert(sessions[a].name != sessions[b].name);
    }
    fetched_sessions_are_remembered(cfg, list, sessions[i].name);
    assert(list[i] == (sessions[i].name, sessions[i].dir));
    if sessions[i].dir.len() == 0 && cfg.dir_of(sessions[i].name) is Some {
        lemma_unknown_keeps(cfg, list, i, list.len() as int);
        assert(list.take(list.len() as int) =~= list);
    }
}

/// A session whose directory is not known keeps the one that is remembered,
/// through the first `n` of the sessions.
proof fn lemma_unknown_keeps(
    cfg: ConfigView,
    list: Seq<(Seq<char>, Seq<char>)>,
    i: int,
    n: int,
)
    requires
        cfg.writable(),
        0 <= i < list.len(),
        0 <= n <= list.len(),
        list[i].1.len() == 0,
        cfg.dir_of(list[i].0) is Some,
        forall|k: int| 0 <= k < list.len() && k != i ==> (#[trigger] list[k]).0 != list[i].0,
    ensures
        cfg.upsert_all(list.take(n)).writable(),
        cfg.upsert_all(list.take(n)).host == cfg.host,
        cfg.upsert_all(list.take(n)).dir_of(list[i].0) == cfg.dir_of(list[i].0),
    decreases n,
{
    if n > 0 {
        lemma_unknown_keeps(cfg, list, i, n - 1);
        let above = cfg.upsert_all(list.take(n - 1));
        assert(list.take(n).drop_last() =~= list.take(n - 1));
        assert(list.take(n).last() == list[n - 1]);
        lemma_stays_writable(above, list[n - 1].0, list[n - 1].1);
        config::upserting_sets_one_session(
            above,
            list[n - 1].0,
            list[n - 1].1,
            list[i].0,
            cfg.host,
        );
    }
}

/// Where the host did not answer, what is shown is what is remembered, as
/// stopped, and nothing that is remembered changes.
pub proof fn a_failed_fetch_changes_nothing(cfg: ConfigView, sessions: Seq<SessionView>)
    requires
        cfg.valid(),
        probe::is_merge_of(sessions, answer_text(None), cfg.entries()),
    ensures
        name_dirs(sessions) == cfg.entries(),
        forall|i: int| 0 <= i < sessions.len() ==> !(#[trigger] sessions[i]).running,
        cfg.upsert_all(name_dirs(sessions)) == cfg,
{
    let raw = answer_text(None);
    let entries = cfg.entries();
    probe::a_fetch_shows_every_session(sessions, raw, entries);
    crate::lines::the_last_line_may_be_open(raw);
    assert(!Seq::<Seq<char>>::empty().contains("==="@));
    probe::the_answer_has_two_parts(raw, Seq::empty(), Seq::empty());
    assert(crate::lines::lines(raw) =~= Seq::empty());
    assert(probe::answer_live(raw).len() == 0);
    assert forall|i: int| 0 <= i < sessions.len() implies !(#[trigger] sessions[i]).running && i
        < entries.len() && (sessions[i].name, sessions[i].dir) == entries[i] by {
        probe::stopped_sessions_are_as_remembered(sessions, raw, entries, i);
    }
    if sessions.len() > entries.len() {
        assert(!sessions[entries.len() as int].running);
    }
    assert(name_dirs(sessions) =~= entries);
    config::write_back_changes_nothing(cfg);
}

/// An answer of the host counts as it is.
pub proof fn answers_count_as_they_are(raw: &str)
    ensures
        answer_text(Some(raw)) == raw@,
        answer_text(None).len() == 0,
{
}

/// What is shown while sessions are deleted tells how many: the number between
/// the words reads back as the count.
pub proof fn deletions_say_how_many(count: nat)
    ensures
        exists|number: Seq<char>| #[trigger]
            numbers::all_digits(number) && numbers::integer(number) == Some(count as int)
                && deleting_text(count) == "Deleting "@ + number + "…"@,
{
    numbers::reading_undoes_printing(count);
    assert(numbers::all_digits(numbers::decimal(count)));
}

}
