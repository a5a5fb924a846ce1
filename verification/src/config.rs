//! The configuration: an object keyed by host, each host an object that maps
//! the names of sessions to their directories.
use vstd::prelude::*;
use vstd::string::*;
use crate::json;
use crate::json::Json;
use crate::probe;

verus! {

/// The configuration, as one host sees it.
pub struct Config {
    host: String,
    root: serde_json::Map<String, serde_json::Value>,
}

/// What a [`Config`] says.
#[verifier::ext_equal]
pub struct ConfigView {
    pub host: Seq<char>,
    pub root: Seq<(Seq<char>, Json)>,
}

impl View for Config {
    type V = ConfigView;

    closed spec fn view(&self) -> ConfigView {
        ConfigView { host: self.host@, root: json::members(self.root) }
    }
}

/// The members of the object that a text holds; none where there is no text or
/// it holds something else.
pub open spec fn loaded_root(text: Option<Seq<char>>) -> Seq<(Seq<char>, Json)> {
    match text {
        Some(text) => match json::read_text(text) {
            Some(Json::Object(list)) => list,
            _ => Seq::empty(),
        },
        None => Seq::empty(),
    }
}

/// The text that a document holds, or none.
pub open spec fn text_of(j: Json) -> Seq<char> {
    match j {
        Json::Text(s) => s,
        _ => Seq::empty(),
    }
}

/// The members with `name` set to `dir`. A directory replaces what is there;
/// no directory adds the name only where it is missing.
pub open spec fn upserted(
    list: Seq<(Seq<char>, Json)>,
    name: Seq<char>,
    dir: Seq<char>,
) -> Seq<(Seq<char>, Json)> {
    if dir.len() > 0 || !json::has(list, name) {
        json::put(list, name, Json::Text(dir))
    } else {
        list
    }
}

impl ConfigView {
    /// The sessions of the host as the configuration holds them, where it
    /// holds an object for the host.
    pub open spec fn host_members(self) -> Option<Seq<(Seq<char>, Json)>> {
        match json::lookup(self.root, self.host) {
            Some(Json::Object(list)) => Some(list),
            _ => None,
        }
    }

    /// The names of the host's sessions with their directories, in order.
    pub open spec fn entries(self) -> Seq<(Seq<char>, Seq<char>)> {
        match self.host_members() {
            Some(list) => list.map_values(|m: (Seq<char>, Json)| (m.0, text_of(m.1))),
            None => Seq::empty(),
        }
    }

    /// The directory of the session `name`, where the configuration names it.
    pub open spec fn dir_of(self, name: Seq<char>) -> Option<Seq<char>> {
        match self.host_members() {
            Some(list) => match json::lookup(list, name) {
                Some(j) => Some(text_of(j)),
                None => None,
            },
            None => None,
        }
    }

    /// Whether the configuration holds an object for the host, or nothing yet.
    pub open spec fn writable(self) -> bool {
        json::lookup(self.root, self.host) matches Some(j) ==> j is Object
    }

    /// The configuration with the members of the host replaced.
    pub open spec fn with_members(self, list: Seq<(Seq<char>, Json)>) -> ConfigView {
        ConfigView { root: json::put(self.root, self.host, Json::Object(list)), ..self }
    }

    /// The configuration with the session `name` in the directory `dir`.
    pub open spec fn upsert(self, name: Seq<char>, dir: Seq<char>) -> ConfigView {
        let list = match self.host_members() {
            Some(list) => list,
            None => Seq::empty(),
        };
        self.with_members(upserted(list, name, dir))
    }

    /// The configuration without the session `name`.
    pub open spec fn remove(self, name: Seq<char>) -> ConfigView {
        match self.host_members() {
            Some(list) => self.with_members(json::take_out(list, name)),
            None => self,
        }
    }

    /// The configuration with each session of a list put into it, in turn.
    pub open spec fn upsert_all(self, list: Seq<(Seq<char>, Seq<char>)>) -> ConfigView
        decreases list.len(),
    {
        if list.len() == 0 {
            self
        } else {
            self.upsert_all(list.drop_last()).upsert(list.last().0, list.last().1)
        }
    }

    /// Whether the configuration is one that a file can hold.
    pub open spec fn valid(self) -> bool {
        json::readable(Json::Object(self.root))
    }
}

/// The members of the object that a text holds.
pub(crate) fn load_root(text: Option<&str>) -> (r: serde_json::Map<String, serde_json::Value>)
    ensures
        json::members(r) == loaded_root(
            match text {
                Some(text) => Some(text@),
                None => None,
            },
        ),
        json::readable(Json::Object(json::members(r))),
{
    if let Some(text) = text {
        if let Ok(value) = json::parse(text) {
            if let Some(object) = json::as_object(&value) {
                return json::copy_object(object);
            }
        }
    }
    json::new_object()
}

/// The text of an object.
pub(crate) fn save_root(root: &serde_json::Map<String, serde_json::Value>) -> (r: String)
    ensures
        r@ == json::pretty_text(Json::Object(json::members(*root))),
        json::storable(Json::Object(json::members(*root))) ==> json::read_text(r@) == Some(
            Json::Object(json::members(*root)),
        ),
{
    let value = json::object_value(json::copy_object(root));
    match json::print(&value) {
        Ok(s) => s,
        Err(_) => String::new(),
    }
}

impl Config {
    /// The configuration that the text of its file holds, as `host` sees it.
    /// Without a file, or where the file holds no object, it is empty.
    pub fn load_from(text: Option<&str>, host: &str) -> (r: Config)
        ensures
            r@ == (ConfigView {
                host: host@,
                root: loaded_root(
                    match text {
                        Some(text) => Some(text@),
                        None => None,
                    },
                ),
            }),
            r@.valid(),
    {
        Config { host: host.to_string(), root: load_root(text) }
    }

    /// The names of the host's sessions with their directories, in order.
    pub fn entries(&self) -> (r: Vec<(String, String)>)
        ensures
            probe::pair_texts(r@) == self@.entries(),
    {
        let mut out: Vec<(String, String)> = Vec::new();
        let object = match json::get(&self.root, self.host.as_str()) {
            Some(value) => match json::as_object(value) {
                Some(object) => object,
                None => {
                    assert(probe::pair_texts(out@) =~= self@.entries());
                    return out;
                },
            },
            None => {
                assert(probe::pair_texts(out@) =~= self@.entries());
                return out;
            },
        };
        let list = json::member_list(object);
        let ghost all = json::members(*object);
        let ghost entries = self@.entries();
        let mut i: usize = 0;
        assert(probe::pair_texts(out@) =~= entries.take(0));
        while i < list.len()
            invariant
                i <= list.len(),
                all == list@.map_values(
                    |m: (&String, &serde_json::Value)| (m.0@, json::document(*m.1)),
                ),
                entries == all.map_values(|m: (Seq<char>, Json)| (m.0, text_of(m.1))),
                probe::pair_texts(out@) == entries.take(i as int),
            decreases list.len() - i,
        {
            let (name, value) = list[i];
            assert(all[i as int] == (name@, json::document(*value)));
            let dir = match json::as_str(value) {
                Some(s) => s.to_string(),
                None => String::new(),
            };
            assert(dir@ =~= text_of(json::document(*value)));
            let ghost before = probe::pair_texts(out@);
            out.push((name.clone(), dir));
            assert(probe::pair_texts(out@) =~= before.push((name@, dir@)));
            assert(entries.take(i + 1) =~= entries.take(i as int).push((name@, dir@)));
            i += 1;
        }
        assert(entries.take(i as int) =~= entries);
        out
    }

    /// Whether a session can be put into the configuration: it holds an object
    /// for the host, or nothing yet.
    pub fn is_writable(&self) -> (r: bool)
        ensures
            r == self@.writable(),
    {
        match json::get(&self.root, self.host.as_str()) {
            Some(value) => json::as_object(value).is_some(),
            None => true,
        }
    }

    /// Puts the session `name` into the configuration. A directory replaces
    /// the one that is there; an empty one does not.
    pub fn upsert(&mut self, name: &str, dir: &str)
        requires
            old(self)@.writable(),
        ensures
            final(self)@ == old(self)@.upsert(name@, dir@),
    {
        let ghost before = self@;
        if !json::contains_key(&self.root, self.host.as_str()) {
            let empty = json::object_value(json::new_object());
            json::insert(&mut self.root, self.host.clone(), empty);
        }
        proof {
            json::lemma_put(before.root, before.host, Json::Object(Seq::empty()));
        }
        if let Some(value) = json::get_mut(&mut self.root, self.host.as_str()) {
            if let Some(object) = json::as_object_mut(value) {
                if !dir.is_empty() {
                    json::insert(object, name.to_string(), json::text_value(dir.to_string()));
                } else if !json::contains_key(object, name) {
                    json::insert(object, name.to_string(), json::text_value(String::new()));
                }
            }
        }
        proof {
            if dir@.len() == 0 {
                assert(dir@ =~= Seq::empty());
            }
            let made = match before.host_members() {
                Some(list) => upserted(list, name@, dir@),
                None => upserted(Seq::empty(), name@, dir@),
            };
            json::lemma_put_twice(
                before.root,
                before.host,
                Json::Object(Seq::empty()),
                Json::Object(made),
            );
            assert(self@ =~= before.upsert(name@, dir@));
        }
    }

    /// Takes the session `name` out of the configuration.
    pub fn remove(&mut self, name: &str)
        ensures
            final(self)@ == old(self)@.remove(name@),
    {
        let ghost before = self@;
        if let Some(value) = json::get_mut(&mut self.root, self.host.as_str()) {
            if let Some(object) = json::as_object_mut(value) {
                json::remove(object, name);
            }
        }
        proof {
            json::lemma_put_back(before.root, before.host);
            assert(self@ =~= before.remove(name@));
        }
    }

    /// The text of the configuration, to be written to its file.
    pub fn save(&self) -> (r: String)
        ensures
            r@ == json::pretty_text(Json::Object(self@.root)),
            json::storable(Json::Object(self@.root)) ==> loaded_root(Some(r@)) == self@.root,
    {
        save_root(&self.root)
    }
}

// --- Laws ---

/// Putting a session into the configuration, or taking one out, keeps it such
/// that a session can be put into it, that a file can hold it, and that its
/// text loads back as it is.
pub proof fn changes_keep_validity(cfg: ConfigView, name: Seq<char>, dir: Seq<char>)
    requires
        cfg.valid(),
    ensures
        cfg.writable() ==> cfg.upsert(name, dir).writable() && cfg.upsert(name, dir).valid(),
        cfg.writable() && json::exact_numbers(Json::Object(cfg.root)) ==> json::exact_numbers(
            Json::Object(cfg.upsert(name, dir).root),
        ),
        cfg.remove(name).valid(),
        cfg.writable() ==> cfg.remove(name).writable(),
        json::exact_numbers(Json::Object(cfg.root)) ==> json::exact_numbers(
            Json::Object(cfg.remove(name).root),
        ),
{
    json::lemma_place_bounds(cfg.root, cfg.host);
    let list = match cfg.host_members() {
        Some(list) => list,
        None => Seq::empty(),
    };
    if cfg.host_members() is Some {
        let at = json::place(cfg.root, cfg.host);
        assert(json::keyed(cfg.root[at].1));
        assert(json::nests_within(cfg.root[at].1, 126));
        assert(json::exact_numbers(Json::Object(cfg.root)) ==> json::exact_numbers(cfg.root[at].1));
    }
    if cfg.host_members() is Some || cfg.writable() {
        json::lemma_put_readable(list, name, Json::Text(dir), 126);
        json::lemma_take_out_readable(list, name, 126);
        let added = Json::Object(upserted(list, name, dir));
        let removed = Json::Object(json::take_out(list, name));
        json::lemma_put_readable(cfg.root, cfg.host, added, 127);
        json::lemma_put_readable(cfg.root, cfg.host, removed, 127);
        json::lemma_put(cfg.root, cfg.host, added);
        json::lemma_put(cfg.root, cfg.host, removed);
    }
}

/// A session that is put into the configuration is found there: in the given
/// directory, or where none is given in the one it had. No other session of
/// the host changes, and no other host.
pub proof fn upserting_sets_one_session(
    cfg: ConfigView,
    name: Seq<char>,
    dir: Seq<char>,
    other: Seq<char>,
    host: Seq<char>,
)
    requires
        cfg.writable(),
    ensures
        ({
            let before = match cfg.host_members() {
                Some(list) => list,
                None => Seq::empty(),
            };
            let after = cfg.upsert(name, dir).host_members();
            &&& after matches Some(after) && {
                &&& dir.len() > 0 ==> json::lookup(after, name) == Some(Json::Text(dir))
                &&& dir.len() == 0 && json::has(before, name) ==> after == before
                &&& dir.len() == 0 && !json::has(before, name) ==> json::lookup(after, name)
                    == Some(Json::Text(Seq::empty()))
                &&& other != name ==> json::lookup(after, other) == json::lookup(before, other)
            }
        }),
        host != cfg.host ==> json::lookup(cfg.upsert(name, dir).root, host) == json::lookup(
            cfg.root,
            host,
        ),
        cfg.upsert(name, dir).host == cfg.host,
{
    let list = match cfg.host_members() {
        Some(list) => list,
        None => Seq::empty(),
    };
    json::lemma_put(list, name, Json::Text(dir));
    json::lemma_put(cfg.root, cfg.host, Json::Object(upserted(list, name, dir)));
    if dir.len() == 0 {
        assert(dir =~= Seq::empty());
    }
}

/// Putting a session into the configuration keeps the order of the names that
/// are there and adds a new one at the end.
pub proof fn upserting_keeps_order(cfg: ConfigView, name: Seq<char>, dir: Seq<char>)
    requires
        cfg.writable(),
    ensures
        ({
            let before = probe::names_of(cfg.entries());
            let after = probe::names_of(cfg.upsert(name, dir).entries());
            after == if before.contains(name) {
                before
            } else {
                before.push(name)
            }
        }),
{
    let list = match cfg.host_members() {
        Some(list) => list,
        None => Seq::empty(),
    };
    let next = upserted(list, name, dir);
    json::lemma_put(cfg.root, cfg.host, Json::Object(next));
    json::lemma_place_bounds(list, name);
    let before = probe::names_of(cfg.entries());
    let after = probe::names_of(cfg.upsert(name, dir).entries());
    assert(before.len() == list.len());
    assert(after.len() == next.len());
    assert forall|i: int| 0 <= i < before.len() implies before[i] == list[i].0 by {}
    assert forall|i: int| 0 <= i < after.len() implies after[i] == next[i].0 by {}
    if json::has(list, name) {
        assert(before[json::place(list, name)] == name);
        assert(after =~= before);
    } else {
        assert(!before.contains(name)) by {
            if before.contains(name) {
                let k = choose|k: int| 0 <= k < before.len() && before[k] == name;
                assert(list[k].0 == name);
            }
        }
        assert(after =~= before.push(name));
    }
}

/// Putting every session of the configuration back as it is listed changes
/// nothing, neither a directory nor the order.
pub proof fn write_back_changes_nothing(cfg: ConfigView)
    requires
        cfg.valid(),
    ensures
        cfg.upsert_all(cfg.entries()) == cfg,
{
    lemma_write_back(cfg, cfg.entries().len() as int);
    assert(cfg.entries().take(cfg.entries().len() as int) =~= cfg.entries());
}

/// Putting the first `n` sessions back changes nothing.
proof fn lemma_write_back(cfg: ConfigView, n: int)
    requires
        cfg.valid(),
        0 <= n <= cfg.entries().len(),
    ensures
        cfg.upsert_all(cfg.entries().take(n)) == cfg,
    decreases n,
{
    let entries = cfg.entries();
    if n > 0 {
        lemma_write_back(cfg, n - 1);
        assert(entries.take(n).drop_last() =~= entries.take(n - 1));
        let (name, dir) = entries.take(n).last();
        let list = cfg.host_members()->0;
        json::lemma_place_bounds(cfg.root, cfg.host);
        assert(json::keyed(cfg.root[json::place(cfg.root, cfg.host)].1));
        assert(json::distinct_keys(list));
        assert(entries[n - 1] == (list[n - 1].0, text_of(list[n - 1].1)));
        json::lemma_place_bounds(list, name);
        let at = json::place(list, name);
        if at < n - 1 {
            assert(list[at].0 != list[n - 1].0);
        }
        assert(at == n - 1);
        json::lemma_put_back(list, name);
        json::lemma_put_back(cfg.root, cfg.host);
        assert(upserted(list, name, dir) == list);
        assert(cfg.upsert(name, dir) =~= cfg);
    }
}

/// A session that is taken out of the configuration is gone. No other session
/// of the host changes, and no other host.
pub proof fn removing_takes_one_session(
    cfg: ConfigView,
    name: Seq<char>,
    other: Seq<char>,
    host: Seq<char>,
)
    requires
        cfg.valid(),
    ensures
        match (cfg.host_members(), cfg.remove(name).host_members()) {
            (Some(before), Some(after)) => {
                &&& json::lookup(after, name) is None
                &&& other != name ==> json::lookup(after, other) == json::lookup(before, other)
            },
            (None, None) => cfg.remove(name) == cfg,
            _ => false,
        },
        host != cfg.host ==> json::lookup(cfg.remove(name).root, host) == json::lookup(
            cfg.root,
            host,
        ),
{
    json::lemma_place_bounds(cfg.root, cfg.host);
    if let Some(list) = cfg.host_members() {
        assert(json::keyed(cfg.root[json::place(cfg.root, cfg.host)].1));
        json::lemma_take_out(list, name);
        json::lemma_put(cfg.root, cfg.host, Json::Object(json::take_out(list, name)));
    }
}

/// Taking a session out of the configuration leaves the others as they are
/// listed, in the same order.
pub proof fn removing_keeps_order(cfg: ConfigView, name: Seq<char>)
    requires
        cfg.valid(),
    ensures
        cfg.remove(name).entries() == cfg.entries().filter(
            |entry: (Seq<char>, Seq<char>)| entry.0 != name,
        ),
{
    let entries = cfg.entries();
    let after = cfg.remove(name).entries();
    json::lemma_place_bounds(cfg.root, cfg.host);
    if let Some(list) = cfg.host_members() {
        let next = json::take_out(list, name);
        assert(json::keyed(cfg.root[json::place(cfg.root, cfg.host)].1));
        json::lemma_put(cfg.root, cfg.host, Json::Object(next));
        json::lemma_place_bounds(list, name);
        let at = json::place(list, name);
        assert forall|i: int| 0 <= i < list.len() implies #[trigger] entries[i] == (
            list[i].0,
            text_of(list[i].1),
        ) by {}
        if at < list.len() {
            assert forall|i: int| 0 <= i < entries.len() && i != at implies (
            #[trigger] entries[i]).0 != name by {
                if i > at {
                    assert(list[at].0 != list[i].0);
                }
            }
            assert(after =~= entries.remove(at));
        } else {
            assert(after =~= entries);
        }
        lemma_filter_one(entries, name, at);
    } else {
        lemma_filter_one(entries, name, 0);
    }
}

/// Where at most the entry at `at` has the name, filtering the name out takes
/// that entry out.
proof fn lemma_filter_one(entries: Seq<(Seq<char>, Seq<char>)>, name: Seq<char>, at: int)
    requires
        0 <= at <= entries.len(),
        at < entries.len() ==> entries[at].0 == name,
        forall|i: int| 0 <= i < entries.len() && i != at ==> (#[trigger] entries[i]).0 != name,
    ensures
        entries.filter(|entry: (Seq<char>, Seq<char>)| entry.0 != name) == if at < entries.len() {
            entries.remove(at)
        } else {
            entries
        },
    decreases entries.len(),
{
    reveal(Seq::filter);
    if entries.len() > 0 {
        let rest = entries.drop_last();
        let keep = |entry: (Seq<char>, Seq<char>)| entry.0 != name;
        assert forall|i: int| 0 <= i < rest.len() implies #[trigger] rest[i] == entries[i] by {}
        if at < rest.len() {
            lemma_filter_one(rest, name, at);
            assert(entries.last() == entries[entries.len() - 1]);
            assert(rest.remove(at).push(entries.last()) =~= entries.remove(at));
        } else {
            lemma_filter_one(rest, name, rest.len() as int);
            if at < entries.len() {
                assert(entries.remove(at) =~= rest);
            } else {
                assert(entries.last() == entries[entries.len() - 1]);
                assert(rest.push(entries.last()) =~= entries);
            }
        }
    }
}

/// A member of the host's object is listed with its text.
proof fn lemma_listed(cfg: ConfigView, name: Seq<char>)
    requires
        cfg.host_members() matches Some(list) && json::has(list, name),
    ensures
        cfg.entries().contains((name, text_of(json::lookup(cfg.host_members()->0, name)->0))),
{
    let list = cfg.host_members()->0;
    json::lemma_place_bounds(list, name);
    let at = json::place(list, name);
    assert(cfg.entries()[at] == (name, text_of(list[at].1)));
}

/// A directory is remembered across restarts: where the configuration that was
/// saved after a session was put into it is loaded again, it lists the session
/// with its directory.
pub proof fn directories_are_remembered(
    cfg: ConfigView,
    name: Seq<char>,
    dir: Seq<char>,
    text: Seq<char>,
)
    requires
        cfg.writable(),
        dir.len() > 0,
        loaded_root(Some(text)) == cfg.upsert(name, dir).root,
    ensures
        (ConfigView { host: cfg.host, root: loaded_root(Some(text)) }).entries().contains(
            (name, dir),
        ),
{
    upserting_sets_one_session(cfg, name, dir, name, cfg.host);
    let again = ConfigView { host: cfg.host, root: loaded_root(Some(text)) };
    assert(again =~= cfg.upsert(name, dir));
    lemma_listed(again, name);
}

/// A session is listed with a directory exactly where that is the directory it
/// has.
pub proof fn sessions_are_listed_with_their_directory(
    cfg: ConfigView,
    name: Seq<char>,
    dir: Seq<char>,
)
    requires
        cfg.valid(),
    ensures
        cfg.entries().contains((name, dir)) <==> cfg.dir_of(name) == Some(dir),
        probe::names_of(cfg.entries()).contains(name) <==> cfg.dir_of(name) is Some,
        probe::names_of(cfg.entries()).no_duplicates(),
{
    json::lemma_place_bounds(cfg.root, cfg.host);
    let entries = cfg.entries();
    let names = probe::names_of(entries);
    if let Some(list) = cfg.host_members() {
        assert(json::keyed(cfg.root[json::place(cfg.root, cfg.host)].1));
        assert(json::distinct_keys(list));
        json::lemma_place_bounds(list, name);
        let at = json::place(list, name);
        assert forall|i: int| 0 <= i < list.len() implies #[trigger] entries[i] == (
            list[i].0,
            text_of(list[i].1),
        ) && names[i] == list[i].0 by {}
        if at < list.len() {
            assert(entries[at] == (name, text_of(list[at].1)));
            assert(names[at] == name);
        }
        if entries.contains((name, dir)) {
            let i = choose|i: int| 0 <= i < entries.len() && entries[i] == (name, dir);
            assert(list[i].0 == name);
            if i != at {
                assert(at < list.len());
                if at < i {
                    assert(list[at].0 != list[i].0);
                }
            }
        }
        if names.contains(name) {
            let i = choose|i: int| 0 <= i < names.len() && names[i] == name;
            assert(list[i].0 == name);
        }
        assert forall|a: int, b: int| 0 <= a < b < names.len() implies names[a] != names[b] by {
            assert(list[a].0 != list[b].0);
        }
    }
}

/// What is listed once a session was put into the configuration: the session, in
/// its directory or in the one it had, and every other one as before.
pub proof fn upserting_lists_the_session(
    cfg: ConfigView,
    name: Seq<char>,
    dir: Seq<char>,
    other: (Seq<char>, Seq<char>),
)
    requires
        cfg.valid(),
        cfg.writable(),
        other.0 != name,
    ensures
        dir.len() > 0 ==> cfg.upsert(name, dir).entries().contains((name, dir)),
        dir.len() == 0 && cfg.dir_of(name) is None ==> cfg.upsert(name, dir).entries().contains(
            (name, dir),
        ),
        dir.len() == 0 && cfg.dir_of(name) is Some ==> cfg.upsert(name, dir).entries()
            == cfg.entries(),
        cfg.upsert(name, dir).entries().contains(other) == cfg.entries().contains(other),
{
    changes_keep_validity(cfg, name, dir);
    upserting_sets_one_session(cfg, name, dir, other.0, cfg.host);
    sessions_are_listed_with_their_directory(cfg, other.0, other.1);
    sessions_are_listed_with_their_directory(cfg.upsert(name, dir), other.0, other.1);
    sessions_are_listed_with_their_directory(cfg.upsert(name, dir), name, dir);
    if dir.len() == 0 {
        assert(dir =~= Seq::empty());
    }
}

/// A file that holds an object is loaded as that object; one that holds something
/// else, or nothing that can be read, and no file at all, is loaded as nothing.
pub proof fn files_are_loaded_as_they_are(text: Seq<char>, list: Seq<(Seq<char>, Json)>)
    ensures
        json::read_text(text) == Some(Json::Object(list)) ==> loaded_root(Some(text)) == list,
        !(json::read_text(text) matches Some(j) && j is Object) ==> loaded_root(Some(text)).len()
            == 0,
        loaded_root(None).len() == 0,
{
}

}
