//! The archive: an object keyed by host, each host the list of the names of
//! its archived sessions. It is kept apart from the configuration, which
//! archiving never changes.
use vstd::prelude::*;
use vstd::string::*;
use crate::config;
use crate::json;
use crate::json::Json;
use crate::names;
use crate::names::NameSet;
use crate::text;

verus! {

/// The archive, as one host sees it.
pub struct Archive {
    host: String,
    root: serde_json::Map<String, serde_json::Value>,
}

/// What an [`Archive`] says.
#[verifier::ext_equal]
pub struct ArchiveView {
    pub host: Seq<char>,
    pub root: Seq<(Seq<char>, Json)>,
}

impl View for Archive {
    type V = ArchiveView;

    closed spec fn view(&self) -> ArchiveView {
        ArchiveView { host: self.host@, root: json::members(self.root) }
    }
}

/// The texts of a list of documents; other documents are left out.
pub open spec fn text_items(list: Seq<Json>) -> Seq<Seq<char>>
    decreases list.len(),
{
    if list.len() == 0 {
        Seq::empty()
    } else {
        let above = text_items(list.drop_last());
        match list.last() {
            Json::Text(s) => above.push(s),
            _ => above,
        }
    }
}

impl ArchiveView {
    /// What the archive holds for the host; nothing where that is no list.
    pub open spec fn items(self) -> Seq<Json> {
        match json::lookup(self.root, self.host) {
            Some(Json::Array(list)) => list,
            _ => Seq::empty(),
        }
    }

    /// The archived names, each once, in ascending order.
    pub open spec fn names(self) -> Seq<Seq<char>> {
        names::sorted_set(text_items(self.items()))
    }

    /// Whether the session `name` is archived.
    pub open spec fn is_archived(self, name: Seq<char>) -> bool {
        self.items().contains(Json::Text(name))
    }

    /// The archive with the names of the host replaced.
    pub open spec fn with_names(self, list: Seq<Seq<char>>) -> ArchiveView {
        ArchiveView {
            root: json::put(
                self.root,
                self.host,
                Json::Array(list.map_values(|n: Seq<char>| Json::Text(n))),
            ),
            ..self
        }
    }

    /// The archive with the session `name` archived or not.
    pub open spec fn set(self, name: Seq<char>, archived: bool) -> ArchiveView {
        if archived {
            self.with_names(names::sorted_set(self.names().push(name)))
        } else {
            self.with_names(names::set_remove(self.names(), name))
        }
    }

    /// The archive once a session has another name: where it is archived, it
    /// stays so under the new one.
    pub open spec fn rename(self, from: Seq<char>, to: Seq<char>) -> ArchiveView {
        if self.is_archived(from) {
            self.set(from, false).set(to, true)
        } else {
            self
        }
    }
}

/// A list of documents holds a text where its texts do.
proof fn lemma_text_items(list: Seq<Json>, name: Seq<char>)
    ensures
        text_items(list).contains(name) <==> list.contains(Json::Text(name)),
    decreases list.len(),
{
    if list.len() > 0 {
        let rest = list.drop_last();
        lemma_text_items(rest, name);
        let above = text_items(rest);
        if list.contains(Json::Text(name)) {
            let i = choose|i: int| 0 <= i < list.len() && list[i] == Json::Text(name);
            if i < list.len() - 1 {
                assert(rest[i] == Json::Text(name));
                let k = choose|k: int| 0 <= k < above.len() && above[k] == name;
                assert(text_items(list)[k] == name);
            } else {
                assert(text_items(list)[above.len() as int] == name);
            }
        }
        if text_items(list).contains(name) {
            let k = choose|k: int| 0 <= k < text_items(list).len() && text_items(list)[k] == name;
            if k < above.len() {
                assert(above[k] == name);
                let i = choose|i: int| 0 <= i < rest.len() && rest[i] == Json::Text(name);
                assert(list[i] == Json::Text(name));
            } else {
                assert(list.last() == Json::Text(name));
            }
        }
    }
}

/// The values of a list of names.
fn name_values(list: &Vec<String>) -> (r: Vec<serde_json::Value>)
    ensures
        json::documents(r@) == text::texts(list@).map_values(|n: Seq<char>| Json::Text(n)),
{
    let ghost all = text::texts(list@).map_values(|n: Seq<char>| Json::Text(n));
    let mut out: Vec<serde_json::Value> = Vec::new();
    let mut i: usize = 0;
    assert(json::documents(out@) =~= all.take(0));
    while i < list.len()
        invariant
            i <= list.len(),
            all == text::texts(list@).map_values(|n: Seq<char>| Json::Text(n)),
            json::documents(out@) == all.take(i as int),
        decreases list.len() - i,
    {
        let ghost before = json::documents(out@);
        let value = json::text_value(list[i].clone());
        out.push(value);
        assert(json::documents(out@) =~= before.push(json::document(value)));
        assert(all.take(i + 1) =~= all.take(i as int).push(all[i as int]));
        i += 1;
    }
    assert(all.take(i as int) =~= all);
    out
}

impl Archive {
    /// The archive that the text of its file holds, as `host` sees it. Without
    /// a file, or where the file holds no object, it is empty.
    pub fn load_from(text: Option<&str>, host: &str) -> (r: Archive)
        ensures
            r@ == (ArchiveView {
                host: host@,
                root: config::loaded_root(
                    match text {
                        Some(text) => Some(text@),
                        None => None,
                    },
                ),
            }),
            json::readable(Json::Object(r@.root)),
    {
        Archive { host: host.to_string(), root: config::load_root(text) }
    }

    /// The texts that the archive holds for the host.
    fn listed(&self) -> (r: Vec<String>)
        ensures
            text::texts(r@) == text_items(self@.items()),
    {
        let ghost items = self@.items();
        let mut out: Vec<String> = Vec::new();
        assert(text::texts(out@) =~= text_items(Seq::empty()));
        let list = match json::get(&self.root, self.host.as_str()) {
            Some(value) => match json::as_array(value) {
                Some(list) => list,
                None => {
                    return out;
                },
            },
            None => {
                return out;
            },
        };
        let mut i: usize = 0;
        assert(text::texts(out@) =~= text_items(items.take(0)));
        while i < list.len()
            invariant
                i <= list.len(),
                items == json::documents(list@),
                text::texts(out@) == text_items(items.take(i as int)),
            decreases list.len() - i,
        {
            assert(items.take(i + 1).drop_last() =~= items.take(i as int));
            assert(items.take(i + 1).last() == json::document(list@[i as int]));
            let ghost before = text::texts(out@);
            if let Some(s) = json::as_str(&list[i]) {
                out.push(s.to_string());
                assert(text::texts(out@) =~= before.push(s@));
            }
            i += 1;
        }
        assert(items.take(i as int) =~= items);
        out
    }

    /// The archived names, each once, in ascending order.
    pub fn names(&self) -> (r: NameSet)
        ensures
            r@ == self@.names(),
            names::is_sorted_set(r@, text_items(self@.items())),
    {
        let sorted = names::sort_names(&self.listed());
        proof {
            names::lemma_sorted_distinct(text::texts(sorted@), text_items(self@.items()));
        }
        NameSet::from_list(sorted)
    }

    /// Whether the session `name` is archived.
    pub fn is_archived(&self, name: &str) -> (r: bool)
        ensures
            r == self@.is_archived(name@),
    {
        proof {
            lemma_text_items(self@.items(), name@);
        }
        names::position(&self.listed(), name).is_some()
    }

    /// Archives the session `name`, or takes it out of the archive.
    pub fn set(&mut self, name: &str, archived: bool)
        ensures
            final(self)@ == old(self)@.set(name@, archived),
    {
        let mut set = self.names();
        let list = if archived {
            let mut list = set.to_list();
            list.push(name.to_string());
            assert(text::texts(list@) =~= self@.names().push(name@));
            names::sort_names(&list)
        } else {
            set.remove(name);
            set.to_list()
        };
        json::insert(&mut self.root, self.host.clone(), json::array_value(name_values(&list)));
        assert(self@ =~= old(self)@.set(name@, archived));
    }

    /// Gives an archived session another name; it stays archived.
    pub fn rename(&mut self, from: &str, to: &str)
        ensures
            final(self)@ == old(self)@.rename(from@, to@),
    {
        if self.is_archived(from) {
            self.set(from, false);
            self.set(to, true);
        }
    }

    /// The text of the archive, to be written to its file.
    pub fn save(&self) -> (r: String)
        ensures
            r@ == json::pretty_text(Json::Object(self@.root)),
            json::storable(Json::Object(self@.root)) ==> config::loaded_root(Some(r@))
                == self@.root,
    {
        config::save_root(&self.root)
    }
}

// --- Laws ---

/// Archiving a session, or taking it out, decides for that session alone: it
/// is archived or not as asked, and every other session is as before.
pub proof fn setting_decides_one_session(
    archive: ArchiveView,
    name: Seq<char>,
    archived: bool,
    other: Seq<char>,
)
    ensures
        archive.set(name, archived).is_archived(name) == archived,
        other != name ==> archive.set(name, archived).is_archived(other) == archive.is_archived(
            other,
        ),
{
    let before = archive.names();
    names::sorted_set_exists(text_items(archive.items()));
    lemma_text_items(archive.items(), name);
    lemma_text_items(archive.items(), other);
    let list = if archived {
        names::sorted_set(before.push(name))
    } else {
        names::set_remove(before, name)
    };
    lemma_with_names(archive, list, name);
    lemma_with_names(archive, list, other);
    if archived {
        names::sorted_set_exists(before.push(name));
        assert(before.push(name)[before.len() as int] == name);
        assert(list.contains(name));
        if other != name {
            if before.contains(other) {
                let k = choose|k: int| 0 <= k < before.len() && before[k] == other;
                assert(before.push(name)[k] == other);
            }
            if before.push(name).contains(other) {
                let k = choose|k: int|
                    0 <= k < before.push(name).len() && before.push(name)[k] == other;
                assert(before[k] == other);
            }
        }
    } else {
        names::lemma_set_remove(before, name, name);
        names::lemma_set_remove(before, name, other);
    }
}

/// What is archived once the names of the host are replaced.
proof fn lemma_with_names(archive: ArchiveView, list: Seq<Seq<char>>, name: Seq<char>)
    ensures
        archive.with_names(list).is_archived(name) <==> list.contains(name),
        archive.with_names(list).items() == list.map_values(|n: Seq<char>| Json::Text(n)),
{
    let docs = list.map_values(|n: Seq<char>| Json::Text(n));
    json::lemma_put(archive.root, archive.host, Json::Array(docs));
    if list.contains(name) {
        let k = choose|k: int| 0 <= k < list.len() && list[k] == name;
        assert(docs[k] == Json::Text(name));
    }
    if docs.contains(Json::Text(name)) {
        let k = choose|k: int| 0 <= k < docs.len() && docs[k] == Json::Text(name);
        assert(list[k] == name);
    }
}

/// A session that is renamed while archived stays archived under its new name
/// and not under the old one; no other session is touched.
pub proof fn renaming_follows(
    archive: ArchiveView,
    from: Seq<char>,
    to: Seq<char>,
    other: Seq<char>,
)
    requires
        other != from,
        other != to,
    ensures
        archive.is_archived(from) ==> archive.rename(from, to).is_archived(to),
        archive.is_archived(from) && from != to ==> !archive.rename(from, to).is_archived(from),
        !archive.is_archived(from) ==> archive.rename(from, to) == archive,
        archive.rename(from, to).is_archived(other) == archive.is_archived(other),
{
    setting_decides_one_session(archive, from, false, other);
    let middle = archive.set(from, false);
    setting_decides_one_session(middle, to, true, other);
    setting_decides_one_session(middle, to, true, from);
}

/// No other host sees what is archived for one.
pub proof fn archiving_is_per_host(archive: ArchiveView, name: Seq<char>, archived: bool, host: Seq<char>)
    requires
        host != archive.host,
    ensures
        json::lookup(archive.set(name, archived).root, host) == json::lookup(archive.root, host),
{
    let list = if archived {
        names::sorted_set(archive.names().push(name))
    } else {
        names::set_remove(archive.names(), name)
    };
    json::lemma_put(
        archive.root,
        archive.host,
        Json::Array(list.map_values(|n: Seq<char>| Json::Text(n))),
    );
}

/// A name is listed where it is archived.
pub proof fn names_list_the_archived(archive: ArchiveView, name: Seq<char>)
    ensures
        archive.names().contains(name) <==> archive.is_archived(name),
{
    names::sorted_set_exists(text_items(archive.items()));
    lemma_text_items(archive.items(), name);
}

/// Archiving keeps the archive such that its text loads back as it is.
pub proof fn archiving_stays_storable(archive: ArchiveView, name: Seq<char>, archived: bool)
    requires
        json::storable(Json::Object(archive.root)),
    ensures
        json::storable(Json::Object(archive.set(name, archived).root)),
{
    let list = if archived {
        names::sorted_set(archive.names().push(name))
    } else {
        names::set_remove(archive.names(), name)
    };
    let docs = list.map_values(|n: Seq<char>| Json::Text(n));
    let value = Json::Array(docs);
    assert forall|i: int| 0 <= i < docs.len() implies json::keyed(#[trigger] docs[i])
        && json::nests_within(docs[i], 125) && json::exact_numbers(docs[i]) by {
        assert(docs[i] == Json::Text(list[i]));
    }
    json::lemma_put_readable(archive.root, archive.host, value, 127);
}

/// What is written for the host once a session was archived, or taken out, is a
/// list of names, each once and in ascending order.
pub proof fn the_archive_is_written_in_order(archive: ArchiveView, name: Seq<char>, archived: bool)
    ensures
        forall|i: int|
            0 <= i < archive.set(name, archived).items().len() ==> #[trigger] archive.set(
                name,
                archived,
            ).items()[i] is Text,
        forall|a: int, b: int|
            0 <= a < b < archive.set(name, archived).items().len() ==> text::text_before(
                (#[trigger] archive.set(name, archived).items()[a])->Text_0,
                (#[trigger] archive.set(name, archived).items()[b])->Text_0,
            ),
{
    let before = archive.names();
    let list = if archived {
        names::sorted_set(before.push(name))
    } else {
        names::set_remove(before, name)
    };
    names::sorted_set_exists(text_items(archive.items()));
    lemma_with_names(archive, list, name);
    let items = archive.set(name, archived).items();
    assert forall|i: int| 0 <= i < items.len() implies #[trigger] items[i] == Json::Text(list[i]) by {}
    if archived {
        names::sorted_set_exists(before.push(name));
    } else {
        names::lemma_sorted_distinct(before, text_items(archive.items()));
        names::sets_change_by_one_name(before, name, name);
        if before.contains(name) {
            let at = choose|at: int| 0 <= at < before.len() && before[at] == name;
            assert(list == before.remove(at));
        }
    }
}

}
