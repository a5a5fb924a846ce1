//! The session under the cursor, the bulk selection, and typing into the
//! search.
use vstd::prelude::*;
use vstd::string::*;
use crate::app::{Action, App, AppView, Row, RowView};
use crate::app;
use crate::browse;
use crate::names;
use crate::ssh::{Session, SessionView};

verus! {

// --- The row under the cursor ---

impl AppView {
    /// The row under the cursor.
    pub open spec fn current_row(self) -> Option<RowView> {
        if 0 <= self.cursor < self.selectable.len() {
            Some(self.rows[self.selectable[self.cursor]])
        } else {
            None
        }
    }

    /// Whether the cursor stands on the entry for a new session.
    pub open spec fn on_new(self) -> bool {
        self.current_row() matches Some(row) && row is New
    }

    /// The session under the cursor.
    pub open spec fn current_session(self) -> Option<SessionView> {
        match self.current_row() {
            Some(RowView::Session(i)) => Some(self.sessions[i]),
            _ => None,
        }
    }

    /// The name of the session under the cursor.
    pub open spec fn current_name(self) -> Option<Seq<char>> {
        match self.current_session() {
            Some(s) => Some(s.name),
            None => None,
        }
    }

    /// Whether there is a session under the cursor, and it runs.
    pub open spec fn current_running(self) -> bool {
        self.current_session() matches Some(s) && s.running
    }

    /// The directory of the session under the cursor.
    pub open spec fn current_dir(self) -> Option<Seq<char>> {
        match self.current_session() {
            Some(s) => Some(s.dir),
            None => None,
        }
    }
}

impl App {
    /// The row under the cursor.
    fn current_row(&self) -> (r: Option<&Row>)
        requires
            self@.in_range(),
        ensures
            match r {
                Some(row) => self@.current_row() == Some(row@) && exists|k: int|
                    0 <= k < self.rows.len() && #[trigger] self.rows@[k] == *row,
                None => self@.current_row() is None,
            },
    {
        if self.cursor < self.selectable.len() {
            let ri = self.selectable[self.cursor];
            assert(self@.selectable[self.cursor as int] == ri);
            assert(self@.rows[ri as int] == self.rows@[ri as int]@);
            Some(&self.rows[ri])
        } else {
            None
        }
    }

    /// Whether the cursor stands on the entry for a new session.
    pub fn on_new(&self) -> (r: bool)
        requires
            self@.in_range(),
        ensures
            r == self@.on_new(),
    {
        match self.current_row() {
            Some(Row::New) => true,
            _ => false,
        }
    }

    /// The session under the cursor.
    pub fn current_session(&self) -> (r: Option<&Session>)
        requires
            self@.in_range(),
        ensures
            match r {
                Some(s) => self@.current_session() == Some(s@),
                None => self@.current_session() is None,
            },
    {
        match self.current_row() {
            Some(Row::Session(i)) => {
                proof {
                    let k = choose|k: int|
                        0 <= k < self.rows.len() && (#[trigger] self.rows@[k])@
                            == RowView::Session(*i as int);
                    assert(self@.rows[k] == RowView::Session(*i as int));
                    assert(self@.sessions[*i as int] == self.sessions@[*i as int]@);
                }
                Some(&self.sessions[*i])
            },
            _ => None,
        }
    }

    /// The name of the session under the cursor.
    pub fn current_name(&self) -> (r: Option<String>)
        requires
            self@.in_range(),
        ensures
            app::text_option(r) == self@.current_name(),
    {
        match self.current_session() {
            Some(s) => Some(s.name.clone()),
            None => None,
        }
    }

    /// Whether the session under the cursor runs.
    pub fn current_running(&self) -> (r: bool)
        requires
            self@.in_range(),
        ensures
            r == self@.current_running(),
    {
        match self.current_session() {
            Some(s) => s.running,
            None => false,
        }
    }

    /// The directory of the session under the cursor.
    pub fn current_dir(&self) -> (r: Option<String>)
        requires
            self@.in_range(),
        ensures
            app::text_option(r) == self@.current_dir(),
    {
        match self.current_session() {
            Some(s) => Some(s.dir.clone()),
            None => None,
        }
    }
}

// --- The bulk selection ---

/// `picked` with `name` taken out where it is in, put in where it is not.
pub open spec fn toggled(picked: Seq<Seq<char>>, name: Seq<char>) -> Seq<Seq<char>> {
    if picked.contains(name) {
        names::set_remove(picked, name)
    } else {
        names::set_insert(picked, name)
    }
}

impl AppView {
    /// The state with the pick of one name toggled.
    pub open spec fn toggle(self, name: Seq<char>) -> AppView {
        AppView { picked: toggled(self.picked, name), ..self }
    }

    /// The state with the pick of the session under the cursor toggled.
    pub open spec fn toggle_pick(self) -> AppView {
        match self.current_name() {
            Some(name) => self.toggle(name),
            None => self,
        }
    }

    /// The state with the pick of the selectable row `k` toggled; as it is
    /// where that row is no session or does not exist.
    pub open spec fn toggle_pick_at(self, k: int) -> AppView {
        if 0 <= k < self.selectable.len() {
            match self.rows[self.selectable[k]] {
                RowView::Session(i) => self.toggle(self.sessions[i].name),
                _ => self,
            }
        } else {
            self
        }
    }

    /// The state with nothing picked.
    pub open spec fn clear_picked(self) -> AppView {
        AppView { picked: Seq::empty(), ..self }
    }
}

impl App {
    /// Picks `name`, or takes it out of the picked names.
    fn toggle(&mut self, name: String)
        ensures
            final(self)@ == old(self)@.toggle(name@),
    {
        if self.picked.contains(name.as_str()) {
            self.picked.remove(name.as_str());
        } else {
            self.picked.insert(name);
        }
        assert(self@ =~= old(self)@.toggle(name@));
    }

    /// Toggles the pick of the session under the cursor.
    pub fn toggle_pick(&mut self)
        requires
            old(self)@.in_range(),
        ensures
            final(self)@ == old(self)@.toggle_pick(),
    {
        if let Some(name) = self.current_name() {
            self.toggle(name);
        }
    }

    /// Toggles the pick of the selectable row `sel_idx`. Nothing happens where
    /// it is the entry for a new session or does not exist.
    pub fn toggle_pick_at(&mut self, sel_idx: usize)
        requires
            old(self)@.in_range(),
        ensures
            final(self)@ == old(self)@.toggle_pick_at(sel_idx as int),
    {
        if sel_idx >= self.selectable.len() {
            return;
        }
        let ri = self.selectable[sel_idx];
        assert(self@.selectable[sel_idx as int] == ri);
        assert(self@.rows[ri as int] == self.rows@[ri as int]@);
        let name = match &self.rows[ri] {
            Row::Session(i) => {
                assert(self@.sessions[*i as int] == self.sessions@[*i as int]@);
                self.sessions[*i].name.clone()
            },
            _ => {
                return;
            },
        };
        self.toggle(name);
    }

    /// Whether `name` is picked.
    pub fn is_picked(&self, name: &str) -> (r: bool)
        ensures
            r == self@.picked.contains(name@),
    {
        self.picked.contains(name)
    }

    /// The picked names, each once.
    pub fn picked_names(&self) -> (r: Vec<String>)
        ensures
            crate::text::texts(r@) == self@.picked,
            self@.picked.no_duplicates(),
    {
        self.picked.to_list()
    }

    /// Picks nothing.
    pub fn clear_picked(&mut self)
        ensures
            final(self)@ == old(self)@.clear_picked(),
    {
        self.picked.clear();
        assert(self@ =~= old(self)@.clear_picked());
    }
}

// --- Escape and the search ---

impl AppView {
    /// Whether Escape has something to clear.
    pub open spec fn can_escape(self) -> bool {
        self.search.len() > 0 || self.picked.len() > 0 || self.action != Action::Attach
    }

    /// The state after Escape: it clears the search; where there is none, the
    /// picked names; where there are none, it goes back to attaching.
    pub open spec fn escape(self) -> AppView {
        if self.search.len() > 0 {
            AppView { search: Seq::empty(), cursor: 0, ..self }
        } else if self.picked.len() > 0 {
            self.clear_picked()
        } else {
            AppView { action: Action::Attach, ..self }
        }
    }

    /// The state with `c` added to the search, on the first row that matches.
    pub open spec fn push_search(self, c: char) -> AppView {
        AppView { search: self.search.push(c), ..self }.jumped()
    }

    /// The state with the last character of the search taken off: on the first
    /// row that matches what is left, or on the very first where nothing is.
    pub open spec fn backspace_search(self) -> AppView {
        if self.search.len() == 0 {
            self
        } else if self.search.len() == 1 {
            AppView { search: Seq::empty(), cursor: 0, ..self }
        } else {
            AppView { search: self.search.drop_last(), ..self }.jumped()
        }
    }
}

impl App {
    /// Clears one thing: the search, else the picked names, else the action.
    /// Returns whether there was anything to clear.
    pub fn escape(&mut self) -> (r: bool)
        ensures
            final(self)@ == old(self)@.escape(),
            r == old(self)@.can_escape(),
            !r ==> final(self)@ == old(self)@,
    {
        let r = if !self.search.as_str().is_empty() {
            self.search = String::new();
            self.cursor = 0;
            true
        } else if !self.picked.is_empty() {
            self.picked.clear();
            true
        } else if self.action != Action::Attach {
            self.action = Action::Attach;
            true
        } else {
            false
        };
        assert(self@ =~= old(self)@.escape());
        r
    }

    /// Adds a character to the search and moves to the first match.
    pub fn push_search(&mut self, c: char)
        requires
            old(self)@.in_range(),
        ensures
            final(self)@ == old(self)@.push_search(c),
    {
        self.search.push(c);
        assert(self@ =~= (AppView { search: old(self)@.search.push(c), ..old(self)@ }));
        self.jump_to_first_match();
    }

    /// Takes the last character of the search off and moves to the first
    /// match.
    pub fn backspace_search(&mut self)
        requires
            old(self)@.in_range(),
        ensures
            final(self)@ == old(self)@.backspace_search(),
    {
        if self.search.pop().is_some() {
            if self.search.as_str().is_empty() {
                self.cursor = 0;
                assert(self@ =~= old(self)@.backspace_search());
            } else {
                assert(self@ =~= (AppView { search: old(self)@.search.drop_last(), ..old(self)@ }));
                self.jump_to_first_match();
            }
        } else {
            assert(self@ =~= old(self)@);
        }
    }
}

// --- Laws ---

/// What toggling does to the names.
proof fn lemma_toggled(picked: Seq<Seq<char>>, name: Seq<char>)
    requires
        picked.no_duplicates(),
    ensures
        toggled(picked, name).no_duplicates(),
        forall|n: Seq<char>| #[trigger]
            toggled(picked, name).contains(n) == (if n == name {
                !picked.contains(n)
            } else {
                picked.contains(n)
            }),
{
    assert forall|n: Seq<char>| #[trigger]
        toggled(picked, name).contains(n) == (if n == name {
            !picked.contains(n)
        } else {
            picked.contains(n)
        }) by {
        names::lemma_set_remove(picked, name, n);
        if !picked.contains(name) {
            let after = picked.push(name);
            if picked.contains(n) {
                let k = choose|k: int| 0 <= k < picked.len() && picked[k] == n;
                assert(after[k] == n);
            }
            assert(after[picked.len() as int] == name);
        }
    }
    if picked.contains(name) {
        let at = choose|at: int| 0 <= at < picked.len() && picked[at] == name;
        names::lemma_remove_is_filter(picked, at);
    } else {
        assert(toggled(picked, name) == picked.push(name));
    }
}

/// Toggling a pick decides on that one name, and toggling it again leaves the
/// same names picked as before.
pub proof fn toggling_twice(picked: Seq<Seq<char>>, name: Seq<char>)
    requires
        picked.no_duplicates(),
    ensures
        toggled(picked, name).contains(name) == !picked.contains(name),
        toggled(picked, name).no_duplicates(),
        forall|other: Seq<char>|
            other != name ==> #[trigger] toggled(picked, name).contains(other) == picked.contains(
                other,
            ),
        toggled(toggled(picked, name), name).to_set() == picked.to_set(),
{
    lemma_toggled(picked, name);
    lemma_toggled(toggled(picked, name), name);
    let twice = toggled(toggled(picked, name), name);
    assert forall|n: Seq<char>| twice.to_set().contains(n) == picked.to_set().contains(n) by {
        assert(toggled(picked, name).contains(n) == (if n == name {
            !picked.contains(n)
        } else {
            picked.contains(n)
        }));
    }
    assert(twice.to_set() =~= picked.to_set());
}

/// Escape clears in stages: the search first, then the picked names, then the
/// action. After three of them nothing is left to clear.
pub proof fn escape_clears_in_stages(app: AppView)
    ensures
        app.search.len() > 0 ==> app.escape().picked == app.picked && app.escape().action
            == app.action && app.escape().search.len() == 0,
        app.search.len() == 0 && app.picked.len() > 0 ==> app.escape().picked.len() == 0
            && app.escape().action == app.action && app.escape().cursor == app.cursor,
        !app.can_escape() ==> app.escape() == app,
        !app.escape().escape().escape().can_escape(),
{
}

/// Taking a character off the search undoes typing it.
pub proof fn backspace_undoes_typing(app: AppView, c: char)
    ensures
        app.push_search(c).search == app.search.push(c),
        app.push_search(c).backspace_search().search == app.search,
        app.push_search(c).picked == app.picked,
{
    assert(app.search.push(c).drop_last() =~= app.search);
    if app.search.len() == 0 {
        assert(app.search =~= Seq::empty());
    }
}

/// The session under the cursor is the one of the row that the cursor stands
/// on, with its name, its directory and whether it runs. Picking it decides on
/// its name alone, and changes nothing but the picked names.
pub proof fn picking_is_for_the_session_of_the_row(app: AppView, k: int, i: int, name: Seq<char>)
    requires
        0 <= k < app.selectable.len(),
        app.rows[app.selectable[k]] == RowView::Session(i),
        app.picked.no_duplicates(),
    ensures
        app.cursor == k ==> {
            &&& app.current_session() == Some(app.sessions[i])
            &&& app.current_name() == Some(app.sessions[i].name)
            &&& app.current_dir() == Some(app.sessions[i].dir)
            &&& app.current_running() == app.sessions[i].running
            &&& !app.on_new()
            &&& app.toggle_pick() == app.toggle_pick_at(k)
        },
        app.toggle_pick_at(k).picked.contains(name) == (if name == app.sessions[i].name {
            !app.picked.contains(name)
        } else {
            app.picked.contains(name)
        }),
        app.toggle_pick_at(k).picked.no_duplicates(),
        app.toggle_pick_at(k) == (AppView { picked: app.toggle_pick_at(k).picked, ..app }),
{
    lemma_toggled(app.picked, app.sessions[i].name);
    assert(toggled(app.picked, app.sessions[i].name).contains(name) == (if name
        == app.sessions[i].name {
        !app.picked.contains(name)
    } else {
        app.picked.contains(name)
    }));
}

/// Only a session can be picked: the entry for a new one, and a row that does
/// not exist, cannot.
pub proof fn only_sessions_are_picked(app: AppView, k: int)
    requires
        0 <= k < app.selectable.len() ==> !(app.rows[app.selectable[k]] is Session),
    ensures
        app.toggle_pick_at(k) == app,
        app.cursor == k ==> app.toggle_pick() == app && app.current_session() is None
            && app.current_name() is None && !app.current_running(),
        app.cursor == k && 0 <= k < app.selectable.len() ==> app.on_new()
            == app.rows[app.selectable[k]] is New,
{
}

/// What is typed is added to the search, and what is taken off is its last
/// character. Then the cursor stands on the first visible row, stays where there
/// is none, and goes to the top where nothing is searched for any more. Nothing
/// else changes.
pub proof fn typing_changes_the_search_and_the_cursor(app: AppView, c: char, k: int)
    ensures
        ({
            let typed = AppView { search: app.search.push(c), ..app };
            let after = app.push_search(c);
            &&& after.search == app.search.push(c)
            &&& after == (AppView { search: after.search, cursor: after.cursor, ..app })
            &&& 0 <= k < app.selectable.len() && typed.stands_visible(k) && (forall|j: int|
                0 <= j < k ==> !typed.stands_visible(j)) ==> after.cursor == k
            &&& (forall|j: int| 0 <= j < app.selectable.len() ==> !typed.stands_visible(j))
                ==> after.cursor == app.cursor
        }),
        app.search.len() > 0 ==> {
            let cut = AppView { search: app.search.drop_last(), ..app };
            let after = app.backspace_search();
            &&& after.search == app.search.drop_last()
            &&& after == (AppView { search: after.search, cursor: after.cursor, ..app })
            &&& app.search.len() == 1 ==> after.cursor == 0
            &&& app.search.len() > 1 && 0 <= k < app.selectable.len() && cut.stands_visible(k) && (
            forall|j: int| 0 <= j < k ==> !cut.stands_visible(j)) ==> after.cursor == k
            &&& app.search.len() > 1 && (forall|j: int|
                0 <= j < app.selectable.len() ==> !cut.stands_visible(j)) ==> after.cursor
                == app.cursor
        },
        app.search.len() == 0 ==> app.backspace_search() == app,
{
    browse::a_jump_leads_to_the_first_visible_row(
        AppView { search: app.search.push(c), ..app },
    );
    if app.search.len() > 0 {
        browse::a_jump_leads_to_the_first_visible_row(
            AppView { search: app.search.drop_last(), ..app },
        );
        if app.search.len() == 1 {
            assert(app.search.drop_last() =~= Seq::empty());
        }
    }
}

/// Escape clears one thing and leaves the rest: a search, going back to the top;
/// else the picked names; else the action.
pub proof fn escape_clears_one_thing(app: AppView)
    ensures
        app.search.len() > 0 ==> app.escape() == (AppView {
            search: Seq::empty(),
            cursor: 0,
            ..app
        }),
        app.search.len() == 0 && app.picked.len() > 0 ==> app.escape() == (AppView {
            picked: Seq::empty(),
            ..app
        }),
        app.search.len() == 0 && app.picked.len() == 0 ==> app.escape() == (AppView {
            action: Action::Attach,
            ..app
        }),
        app.can_escape() <==> app.escape() != app || app.search.len() > 0,
{
    if app.search.len() == 0 && app.picked.len() > 0 {
        assert(app.escape().picked.len() == 0);
    }
}

}
