//! The state of the selector: the session list, the rows that it is displayed
//! as, the search, the cursor, the action, the bulk selection and the modal
//! prompt.
use vstd::prelude::*;
use vstd::string::*;
use crate::names::NameSet;
use crate::order;
use crate::ssh;
use crate::ssh::{Session, SessionView};
use crate::text;

verus! {

// --- Rows ---

/// A row of the displayed list.
#[derive(Clone, Debug)]
pub enum Row {
    /// The "+ New session" entry.
    New,
    /// The header of a project's group.
    Header(String),
    /// A session, by its index in [`App::sessions`].
    Session(usize),
}

/// What a [`Row`] says.
pub enum RowView {
    New,
    Header(Seq<char>),
    Session(int),
}

impl View for Row {
    type V = RowView;

    open spec fn view(&self) -> RowView {
        match self {
            Row::New => RowView::New,
            Row::Header(project) => RowView::Header(project@),
            Row::Session(i) => RowView::Session(*i as int),
        }
    }
}

/// What each row of a list says.
pub open spec fn row_views(list: Seq<Row>) -> Seq<RowView> {
    list.map_values(|r: Row| r@)
}

/// The rows of a list of sessions in the given order: the entry for a new
/// session, then each session, under a header where its project differs from
/// that of the session before.
pub open spec fn rows_for(sessions: Seq<SessionView>, order: Seq<int>) -> Seq<RowView>
    decreases order.len(),
{
    if order.len() == 0 {
        seq![RowView::New]
    } else {
        let above = rows_for(sessions, order.drop_last());
        let project = order::project_of(sessions[order.last()].name);
        if order.len() > 1 && order::project_of(sessions[order[order.len() - 2]].name) == project {
            above.push(RowView::Session(order.last()))
        } else {
            above.push(RowView::Header(project)).push(RowView::Session(order.last()))
        }
    }
}

/// The rows that a list of sessions is displayed as.
pub open spec fn display_rows(sessions: Seq<SessionView>) -> Seq<RowView> {
    rows_for(sessions, order::display_order(sessions))
}

/// The indices of the rows that the cursor can stand on: all but headers.
pub open spec fn selectable_rows(rows: Seq<RowView>) -> Seq<int>
    decreases rows.len(),
{
    if rows.len() == 0 {
        Seq::empty()
    } else {
        let above = selectable_rows(rows.drop_last());
        if rows.last() is Header {
            above
        } else {
            above.push(rows.len() - 1)
        }
    }
}

// --- Actions ---

/// What Enter does with the session under the cursor. Tab cycles through
/// these.
#[derive(Clone, Copy, PartialEq, Eq, Debug, Structural)]
pub enum Action {
    Attach,
    Rename,
    Move,
    Delete,
}

/// The action that follows in the cycle attach, rename, move, delete.
pub open spec fn next_action(action: Action) -> Action {
    match action {
        Action::Attach => Action::Rename,
        Action::Rename => Action::Move,
        Action::Move => Action::Delete,
        Action::Delete => Action::Attach,
    }
}

/// The action that comes before in the cycle.
pub open spec fn prev_action(action: Action) -> Action {
    match action {
        Action::Attach => Action::Delete,
        Action::Rename => Action::Attach,
        Action::Move => Action::Rename,
        Action::Delete => Action::Move,
    }
}

/// The word for an action.
pub open spec fn action_label(action: Action) -> Seq<char> {
    match action {
        Action::Attach => "attach"@,
        Action::Rename => "rename"@,
        Action::Move => "move"@,
        Action::Delete => "delete"@,
    }
}

impl Action {
    /// The action that follows in the cycle.
    pub fn next(self) -> (r: Action)
        ensures
            r == next_action(self),
    {
        match self {
            Action::Attach => Action::Rename,
            Action::Rename => Action::Move,
            Action::Move => Action::Delete,
            Action::Delete => Action::Attach,
        }
    }

    /// The action that comes before in the cycle.
    pub fn prev(self) -> (r: Action)
        ensures
            r == prev_action(self),
    {
        match self {
            Action::Attach => Action::Delete,
            Action::Rename => Action::Attach,
            Action::Move => Action::Rename,
            Action::Delete => Action::Move,
        }
    }

    /// The word for the action.
    pub fn label(self) -> (r: &'static str)
        ensures
            r@ == action_label(self),
    {
        match self {
            Action::Attach => "attach",
            Action::Rename => "rename",
            Action::Move => "move",
            Action::Delete => "delete",
        }
    }
}

/// Going back undoes going on and the other way round. Four steps go round the
/// cycle, past every action.
pub proof fn actions_go_round(action: Action, other: Action)
    ensures
        prev_action(next_action(action)) == action,
        next_action(prev_action(action)) == action,
        next_action(next_action(next_action(next_action(action)))) == action,
        other == action || other == next_action(action) || other == prev_action(action) || other
            == next_action(next_action(action)),
{
}

// --- Prompts ---

/// A modal prompt over the list. While one is open, keys go to it.
#[derive(Clone, Debug)]
pub enum Prompt {
    /// No prompt is open.
    Closed,
    /// The question whether to delete these sessions.
    ConfirmDelete { names: Vec<String> },
    /// The input of a new name for one session; it starts with the old one.
    Rename { old: String, buffer: String },
    /// The choice of the project that these sessions move to.
    MoveTo { names: Vec<String>, candidates: Vec<String>, selected: usize },
    /// The input of the name of a new session.
    NewSession { buffer: String },
}

/// What a [`Prompt`] says.
pub enum PromptView {
    Closed,
    ConfirmDelete { names: Seq<Seq<char>> },
    Rename { old: Seq<char>, buffer: Seq<char> },
    MoveTo { names: Seq<Seq<char>>, candidates: Seq<Seq<char>>, selected: int },
    NewSession { buffer: Seq<char> },
}

impl View for Prompt {
    type V = PromptView;

    open spec fn view(&self) -> PromptView {
        match self {
            Prompt::Closed => PromptView::Closed,
            Prompt::ConfirmDelete { names } => PromptView::ConfirmDelete {
                names: text::texts(names@),
            },
            Prompt::Rename { old: from, buffer } => PromptView::Rename {
                old: from@,
                buffer: buffer@,
            },
            Prompt::MoveTo { names, candidates, selected } => PromptView::MoveTo {
                names: text::texts(names@),
                candidates: text::texts(candidates@),
                selected: *selected as int,
            },
            Prompt::NewSession { buffer } => PromptView::NewSession { buffer: buffer@ },
        }
    }
}

impl Prompt {
    /// Whether a prompt is open.
    pub fn is_active(&self) -> (r: bool)
        ensures
            r == !(self@ is Closed),
    {
        !matches!(self, Prompt::Closed)
    }
}

// --- The state ---

/// The state of the selector.
pub struct App {
    pub sessions: Vec<Session>,
    pub rows: Vec<Row>,
    /// The indices of the rows that the cursor can stand on.
    pub selectable: Vec<usize>,
    /// The cursor, as an index into `selectable`.
    pub cursor: usize,
    pub search: String,
    pub action: Action,
    /// The names of the sessions picked for a bulk action.
    pub picked: NameSet,
    /// The open prompt.
    pub prompt: Prompt,
    /// The line shown while a command runs.
    pub status: Option<String>,
}

/// What an [`App`] says.
#[verifier::ext_equal]
pub struct AppView {
    pub sessions: Seq<SessionView>,
    pub rows: Seq<RowView>,
    pub selectable: Seq<int>,
    pub cursor: int,
    pub search: Seq<char>,
    pub action: Action,
    pub picked: Seq<Seq<char>>,
    pub prompt: PromptView,
    pub status: Option<Seq<char>>,
}

/// What an optional text says.
pub open spec fn text_option(s: Option<String>) -> Option<Seq<char>> {
    match s {
        Some(s) => Some(s@),
        None => None,
    }
}

impl View for App {
    type V = AppView;

    open spec fn view(&self) -> AppView {
        AppView {
            sessions: ssh::session_views(self.sessions@),
            rows: row_views(self.rows@),
            selectable: order::ints(self.selectable@),
            cursor: self.cursor as int,
            search: self.search@,
            action: self.action,
            picked: self.picked@,
            prompt: self.prompt@,
            status: text_option(self.status),
        }
    }
}

impl AppView {
    /// Whether every index leads somewhere: from the selectable rows to the
    /// rows, from the rows to the sessions.
    pub open spec fn in_range(self) -> bool {
        &&& forall|k: int|
            0 <= k < self.selectable.len() ==> 0 <= #[trigger] self.selectable[k] < self.rows.len()
        &&& forall|k: int|
            0 <= k < self.rows.len() ==> match #[trigger] self.rows[k] {
                RowView::Session(i) => 0 <= i < self.sessions.len(),
                _ => true,
            }
    }

    /// Whether the rows are those of the sessions and the cursor stands on one
    /// of them.
    pub open spec fn well_formed(self) -> bool {
        &&& self.rows == display_rows(self.sessions)
        &&& self.selectable == selectable_rows(self.rows)
        &&& 0 <= self.cursor < self.selectable.len()
    }

    /// The state with its rows made anew from its sessions. The cursor stays
    /// where it is, or moves to the last row where it would stand beyond.
    pub open spec fn rebuilt(self) -> AppView {
        let rows = display_rows(self.sessions);
        let selectable = selectable_rows(rows);
        AppView {
            rows,
            selectable,
            cursor: if self.cursor >= selectable.len() {
                selectable.len() - 1
            } else {
                self.cursor
            },
            ..self
        }
    }
}

/// The state that a list of sessions starts with.
pub open spec fn initial(sessions: Seq<SessionView>) -> AppView {
    AppView {
        sessions,
        rows: Seq::empty(),
        selectable: Seq::empty(),
        cursor: 0,
        search: Seq::empty(),
        action: Action::Attach,
        picked: Seq::empty(),
        prompt: PromptView::Closed,
        status: None,
    }.rebuilt()
}

/// The rows that the cursor can stand on are rows, and the first of them is
/// one.
pub proof fn lemma_selectable(rows: Seq<RowView>)
    ensures
        forall|k: int|
            0 <= k < selectable_rows(rows).len() ==> 0 <= #[trigger] selectable_rows(rows)[k]
                < rows.len() && !(rows[selectable_rows(rows)[k]] is Header),
        forall|k: int, m: int|
            0 <= k < m < selectable_rows(rows).len() ==> selectable_rows(rows)[k]
                < selectable_rows(rows)[m],
        rows.len() > 0 && !(rows[0] is Header) ==> selectable_rows(rows).len() > 0
            && selectable_rows(rows)[0] == 0,
    decreases rows.len(),
{
    if rows.len() > 0 {
        lemma_selectable(rows.drop_last());
        assert(rows.len() > 1 ==> rows.drop_last()[0] == rows[0]);
    }
}

/// The rows in an order of valid indices lead to sessions.
proof fn lemma_rows_for(sessions: Seq<SessionView>, order: Seq<int>)
    requires
        forall|k: int| 0 <= k < order.len() ==> 0 <= #[trigger] order[k] < sessions.len(),
    ensures
        forall|k: int|
            0 <= k < rows_for(sessions, order).len() ==> match #[trigger] rows_for(
                sessions,
                order,
            )[k] {
                RowView::Session(i) => 0 <= i < sessions.len(),
                _ => true,
            },
        rows_for(sessions, order).len() > 0,
        rows_for(sessions, order)[0] is New,
    decreases order.len(),
{
    if order.len() > 0 {
        lemma_rows_for(sessions, order.drop_last());
    }
}

/// A well-formed state leads everywhere it points, and rebuilding yields one.
pub proof fn rebuilding_is_well_formed(app: AppView)
    requires
        app.cursor >= 0,
    ensures
        app.rebuilt().well_formed(),
        app.rebuilt().in_range(),
        app.well_formed() ==> app.in_range() && app.rebuilt() == app,
{
    order::display_order_exists(app.sessions);
    let order = order::display_order(app.sessions);
    lemma_rows_for(app.sessions, order);
    lemma_selectable(rows_for(app.sessions, order));
}

impl App {
    /// The state that a list of sessions starts with.
    pub fn new(sessions: Vec<Session>) -> (r: App)
        ensures
            r@ == initial(ssh::session_views(sessions@)),
            r@.well_formed(),
            r@.in_range(),
    {
        let mut app = App {
            sessions,
            rows: Vec::new(),
            selectable: Vec::new(),
            cursor: 0,
            search: String::new(),
            action: Action::Attach,
            picked: NameSet::new(),
            prompt: Prompt::Closed,
            status: None,
        };
        assert(app@.rows =~= Seq::empty());
        assert(app@.selectable =~= Seq::empty());
        app.rebuild();
        app
    }

    /// Replaces the sessions and rebuilds the rows.
    pub fn set_sessions(&mut self, sessions: Vec<Session>)
        ensures
            final(self)@ == (AppView {
                sessions: ssh::session_views(sessions@),
                ..old(self)@
            }).rebuilt(),
            final(self)@.well_formed(),
            final(self)@.in_range(),
    {
        self.sessions = sessions;
        self.rebuild();
    }

    /// Makes the rows anew from the sessions: grouped by project, the group
    /// used last first and "other" at the end, and within a group the session
    /// used last first.
    pub fn rebuild(&mut self)
        ensures
            final(self)@ == old(self)@.rebuilt(),
            final(self)@.well_formed(),
            final(self)@.in_range(),
    {
        let ghost all = ssh::session_views(self.sessions@);
        let order = order::display_indices(&self.sessions);
        let ghost places = order::ints(order@);
        self.rows = Vec::new();
        self.rows.push(Row::New);
        self.selectable = Vec::new();
        self.selectable.push(0);
        assert(row_views(self.rows@) =~= rows_for(all, places.take(0)));
        let mut project = String::new();
        let mut k: usize = 0;
        proof {
            let one = row_views(self.rows@);
            assert(one.drop_last() =~= Seq::<RowView>::empty());
            assert(selectable_rows(one.drop_last()) =~= Seq::<int>::empty());
            assert(order::ints(self.selectable@) =~= selectable_rows(one));
        }
        while k < order.len()
            invariant
                k <= order.len(),
                all == ssh::session_views(self.sessions@),
                places == order::ints(order@),
                order::is_display_order(all, places),
                self.sessions@ == old(self).sessions@,
                self.cursor == old(self).cursor,
                self.search == old(self).search,
                self.action == old(self).action,
                self.picked == old(self).picked,
                self.prompt == old(self).prompt,
                self.status == old(self).status,
                row_views(self.rows@) == rows_for(all, places.take(k as int)),
                order::ints(self.selectable@) == selectable_rows(row_views(self.rows@)),
                k > 0 ==> project@ == order::project_of(all[places[k - 1]].name),
            decreases order.len() - k,
        {
            let i = order[k];
            assert(places[k as int] == i);
            assert(all[i as int] == self.sessions@[i as int]@);
            let own = order::project_name(self.sessions[i].name.as_str());
            let ghost above = row_views(self.rows@);
            let same = k > 0 && text::same_text(own.as_str(), project.as_str());
            proof {
                let now = places.take(k + 1);
                assert(now.drop_last() =~= places.take(k as int));
                assert(now.last() == i);
                if k > 0 {
                    assert(now[now.len() - 2] == places[k - 1]);
                }
            }
            if !same {
                self.rows.push(Row::Header(own.clone()));
                proof {
                    let with_header = above.push(RowView::Header(own@));
                    assert(row_views(self.rows@) =~= with_header);
                    assert(with_header.drop_last() =~= above);
                }
            }
            let ghost headed = row_views(self.rows@);
            self.selectable.push(self.rows.len());
            self.rows.push(Row::Session(i));
            proof {
                let full = headed.push(RowView::Session(i as int));
                assert(row_views(self.rows@) =~= full);
                assert(full.drop_last() =~= headed);
                assert(order::ints(self.selectable@) =~= selectable_rows(headed).push(
                    headed.len() as int,
                ));
            }
            project = own;
            k += 1;
        }
        proof {
            assert(places.take(k as int) =~= places);
            order::display_order_exists(all);
            lemma_rows_for(all, places);
            lemma_selectable(rows_for(all, places));
            assert(row_views(self.rows@) == display_rows(all));
        }
        if self.cursor >= self.selectable.len() {
            self.cursor = self.selectable.len() - 1;
        }
        proof {
            rebuilding_is_well_formed(old(self)@);
            assert(self@ =~= old(self)@.rebuilt());
        }
    }
}

// --- Laws ---

/// The cursor can stand on every row but a header, from the top of the list to
/// its end.
pub proof fn the_cursor_passes_headers_only(rows: Seq<RowView>, ri: int)
    requires
        0 <= ri < rows.len(),
    ensures
        selectable_rows(rows).contains(ri) <==> !(rows[ri] is Header),
        forall|a: int, b: int|
            0 <= a < b < selectable_rows(rows).len() ==> selectable_rows(rows)[a]
                < selectable_rows(rows)[b],
    decreases rows.len(),
{
    let rest = rows.drop_last();
    let above = selectable_rows(rest);
    let all = selectable_rows(rows);
    lemma_selectable(rows);
    lemma_selectable(rest);
    if ri < rest.len() {
        the_cursor_passes_headers_only(rest, ri);
        assert(rest[ri] == rows[ri]);
        if above.contains(ri) {
            let k = choose|k: int| 0 <= k < above.len() && above[k] == ri;
            assert(all[k] == ri);
        }
        if all.contains(ri) {
            let k = choose|k: int| 0 <= k < all.len() && all[k] == ri;
            assert(above[k] == ri);
        }
    } else {
        assert(rows.last() == rows[ri]);
        if !(rows[ri] is Header) {
            assert(all[above.len() as int] == ri);
        } else if all.contains(ri) {
            let k = choose|k: int| 0 <= k < all.len() && all[k] == ri;
            assert(above[k] == ri);
        }
    }
}

/// The list starts at its top, on the entry for a new session, with every row
/// visible, nothing picked, no prompt, and attaching as the action.
pub proof fn the_list_starts_at_its_top(sessions: Seq<SessionView>)
    ensures
        initial(sessions).sessions == sessions,
        initial(sessions).cursor == 0,
        initial(sessions).selectable.len() > 0 && initial(sessions).selectable[0] == 0,
        initial(sessions).rows.len() > 0 && initial(sessions).rows[0] is New,
        initial(sessions).search.len() == 0,
        initial(sessions).action == Action::Attach,
        initial(sessions).picked.len() == 0,
        initial(sessions).prompt is Closed,
        initial(sessions).status is None,
{
    order::display_order_exists(sessions);
    let order = order::display_order(sessions);
    lemma_rows_for(sessions, order);
    lemma_selectable(rows_for(sessions, order));
}

/// Making the rows anew changes the rows and, where it would stand beyond the
/// last, the cursor. Nothing else changes.
pub proof fn rebuilding_keeps_the_rest(app: AppView)
    ensures
        app.rebuilt() == (AppView {
            rows: app.rebuilt().rows,
            selectable: app.rebuilt().selectable,
            cursor: app.rebuilt().cursor,
            ..app
        }),
        app.cursor < app.rebuilt().selectable.len() ==> app.rebuilt().cursor == app.cursor,
        app.cursor >= app.rebuilt().selectable.len() ==> app.rebuilt().cursor
            == app.rebuilt().selectable.len() - 1,
{
}

/// Tab goes from attaching to renaming, moving and deleting, and back to
/// attaching.
pub proof fn the_cycle_of_actions()
    ensures
        next_action(Action::Attach) == Action::Rename,
        next_action(Action::Rename) == Action::Move,
        next_action(Action::Move) == Action::Delete,
        next_action(Action::Delete) == Action::Attach,
{
}

}
