//! What keys and clicks do.
use vstd::prelude::*;
use vstd::string::*;
use crate::app::{Action, App, AppView, Prompt, PromptView, RowView};
use crate::app;
use crate::browse;
use crate::mouse::{MouseMap, MouseMapView, Segment};
use crate::names;
use crate::order;
use crate::prompt;
use crate::select;
use crate::ssh::{SessionAction, SessionActionView};
use crate::text;

verus! {

// --- Keys, clicks and what follows from them ---

/// A key.
#[derive(Clone, Copy, Debug, PartialEq, Eq, Structural)]
pub enum Key {
    Up,
    Down,
    Enter,
    Esc,
    Tab,
    BackTab,
    Backspace,
    Char(char),
    /// Any other key.
    Other,
}

/// A key, and whether Control was held.
#[derive(Clone, Copy, Debug, PartialEq, Eq, Structural)]
pub struct KeyPress {
    pub key: Key,
    pub control: bool,
}

/// What the mouse did.
#[derive(Clone, Copy, Debug, PartialEq, Eq, Structural)]
pub enum MouseKind {
    ScrollUp,
    ScrollDown,
    LeftDown,
    /// Anything else.
    Other,
}

/// What the mouse did, and where.
#[derive(Clone, Copy, Debug, PartialEq, Eq, Structural)]
pub struct MouseInput {
    pub kind: MouseKind,
    pub column: u16,
    pub row: u16,
}

/// What is to be done next.
pub enum Outcome {
    /// End the program.
    Quit,
    /// Hand the terminal to a session.
    Attach(SessionAction),
    /// Note a new session and hand the terminal to it.
    NewSessionNamed { name: String },
    /// Delete these sessions.
    ExecDelete { names: Vec<String> },
    /// Rename a session.
    ExecRename { old: String, new: String },
    /// Move these sessions to another project.
    ExecMove { names: Vec<String>, target: String },
    /// Nothing: the state has changed at most.
    Stay,
}

/// What an [`Outcome`] says.
pub enum OutcomeView {
    Quit,
    Attach(SessionActionView),
    NewSessionNamed { name: Seq<char> },
    ExecDelete { names: Seq<Seq<char>> },
    ExecRename { old: Seq<char>, new: Seq<char> },
    ExecMove { names: Seq<Seq<char>>, target: Seq<char> },
    Stay,
}

impl View for Outcome {
    type V = OutcomeView;

    open spec fn view(&self) -> OutcomeView {
        match self {
            Outcome::Quit => OutcomeView::Quit,
            Outcome::Attach(action) => OutcomeView::Attach(action@),
            Outcome::NewSessionNamed { name } => OutcomeView::NewSessionNamed { name: name@ },
            Outcome::ExecDelete { names } => OutcomeView::ExecDelete {
                names: text::texts(names@),
            },
            Outcome::ExecRename { old: from, new: to } => OutcomeView::ExecRename {
                old: from@,
                new: to@,
            },
            Outcome::ExecMove { names, target } => OutcomeView::ExecMove {
                names: text::texts(names@),
                target: target@,
            },
            Outcome::Stay => OutcomeView::Stay,
        }
    }
}

// --- Enter ---

impl AppView {
    /// What the attach action does with the row under the cursor: it attaches
    /// to a running session, and creates one that does not run, in its
    /// directory where it has one.
    pub open spec fn attach_outcome(self) -> OutcomeView {
        match self.current_session() {
            Some(s) => OutcomeView::Attach(
                if s.running {
                    SessionActionView::Attach { name: s.name }
                } else if s.dir.len() == 0 {
                    SessionActionView::New { name: s.name }
                } else {
                    SessionActionView::NewInDir { name: s.name, dir: s.dir }
                },
            ),
            None => OutcomeView::Stay,
        }
    }

    /// The sessions that a bulk action is for: the picked ones; where none is
    /// picked, the one under the cursor.
    pub open spec fn targets(self) -> Option<Seq<Seq<char>>> {
        if self.picked.len() > 0 {
            Some(self.picked)
        } else {
            match self.current_name() {
                Some(name) => Some(seq![name]),
                None => None,
            }
        }
    }

    /// The state and the outcome once the current action was run. The action
    /// goes back to attaching.
    pub open spec fn decide_action(self) -> (AppView, OutcomeView) {
        let reset = AppView { action: Action::Attach, ..self };
        match self.action {
            Action::Attach => if self.on_new() {
                (
                    reset.with_prompt(PromptView::NewSession { buffer: Seq::empty() }),
                    OutcomeView::Stay,
                )
            } else {
                (reset, self.attach_outcome())
            },
            Action::Rename => match self.current_name() {
                Some(name) => (
                    reset.with_prompt(PromptView::Rename { old: name, buffer: name }),
                    OutcomeView::Stay,
                ),
                None => (reset, OutcomeView::Stay),
            },
            Action::Move => match self.targets() {
                Some(names) => (reset.open_move(names), OutcomeView::Stay),
                None => (reset, OutcomeView::Stay),
            },
            Action::Delete => match self.targets() {
                Some(names) => (
                    reset.with_prompt(PromptView::ConfirmDelete { names }),
                    OutcomeView::Stay,
                ),
                None => (reset, OutcomeView::Stay),
            },
        }
    }
}

/// The sessions that a bulk action is for.
fn targets(app: &App) -> (r: Option<Vec<String>>)
    requires
        app@.in_range(),
    ensures
        match r {
            Some(names) => app@.targets() == Some(text::texts(names@)),
            None => app@.targets() is None,
        },
{
    if !app.picked.is_empty() {
        Some(app.picked_names())
    } else {
        match app.current_name() {
            Some(name) => {
                let mut names: Vec<String> = Vec::new();
                names.push(name);
                assert(text::texts(names@) =~= seq![name@]);
                Some(names)
            },
            None => None,
        }
    }
}

/// Runs the current action on the row under the cursor. Attaching hands the
/// terminal over; everything else opens a prompt.
pub fn decide_action(app: &mut App) -> (r: Outcome)
    requires
        old(app)@.in_range(),
    ensures
        (final(app)@, r@) == old(app)@.decide_action(),
{
    let action = app.action;
    let ghost before = app@;
    app.action = Action::Attach;
    let ghost reset = AppView { action: Action::Attach, ..before };
    assert(app@ =~= reset);
    assert(reset.current_row() == before.current_row());
    assert(reset.targets() == before.targets());
    match action {
        Action::Attach => {
            if app.on_new() {
                app.open_new_session();
                Outcome::Stay
            } else {
                match app.current_name() {
                    Some(name) => {
                        if app.current_running() {
                            Outcome::Attach(SessionAction::Attach { name })
                        } else {
                            let dir = match app.current_dir() {
                                Some(dir) => dir,
                                None => String::new(),
                            };
                            if dir.as_str().is_empty() {
                                Outcome::Attach(SessionAction::New { name })
                            } else {
                                Outcome::Attach(SessionAction::NewInDir { name, dir })
                            }
                        }
                    },
                    None => Outcome::Stay,
                }
            }
        },
        Action::Rename => {
            if let Some(name) = app.current_name() {
                app.open_rename(name);
            }
            Outcome::Stay
        },
        Action::Move => {
            if let Some(names) = targets(app) {
                app.open_move(names);
            }
            Outcome::Stay
        },
        Action::Delete => {
            if let Some(names) = targets(app) {
                app.open_confirm_delete(names);
            }
            Outcome::Stay
        },
    }
}

// --- Keys ---

impl AppView {
    /// What Enter does in an open prompt: it confirms what the prompt is
    /// about. The input of a name counts without the white space round it; an
    /// empty one starts nothing.
    pub open spec fn prompt_entered(self) -> (AppView, OutcomeView) {
        let closed = self.with_prompt(PromptView::Closed);
        match self.prompt {
            PromptView::ConfirmDelete { names } => (self, OutcomeView::ExecDelete { names }),
            PromptView::Rename { old: from, buffer } => (
                self,
                OutcomeView::ExecRename { old: from, new: text::trimmed(buffer) },
            ),
            PromptView::MoveTo { names, .. } => match self.move_selected() {
                Some(target) => (self, OutcomeView::ExecMove { names, target }),
                None => (closed, OutcomeView::Stay),
            },
            PromptView::NewSession { buffer } => {
                let name = text::trimmed(buffer);
                if name.len() == 0 {
                    (closed, OutcomeView::Stay)
                } else {
                    (closed, OutcomeView::NewSessionNamed { name })
                }
            },
            PromptView::Closed => (self, OutcomeView::Stay),
        }
    }

    /// What a key does while a prompt is open.
    pub open spec fn prompt_key(self, press: KeyPress) -> (AppView, OutcomeView) {
        match press.key {
            Key::Char('c') if press.control => (self, OutcomeView::Quit),
            Key::Esc => (self.with_prompt(PromptView::Closed), OutcomeView::Stay),
            Key::Enter => self.prompt_entered(),
            Key::Up => (self.move_prev(), OutcomeView::Stay),
            Key::Down => (self.move_next(), OutcomeView::Stay),
            Key::Backspace => (self.prompt_backspace(), OutcomeView::Stay),
            Key::Char(c) => match self.prompt {
                PromptView::ConfirmDelete { names } => if c == 'y' || c == 'Y' {
                    (self, OutcomeView::ExecDelete { names })
                } else if c == 'n' || c == 'N' {
                    (self.with_prompt(PromptView::Closed), OutcomeView::Stay)
                } else {
                    (self, OutcomeView::Stay)
                },
                _ => (self.prompt_push(c), OutcomeView::Stay),
            },
            _ => (self, OutcomeView::Stay),
        }
    }

    /// What a key does in the list.
    pub open spec fn list_key(self, press: KeyPress) -> (AppView, OutcomeView) {
        match press.key {
            Key::Up => (self.nav_up(), OutcomeView::Stay),
            Key::Down => (self.nav_down(), OutcomeView::Stay),
            Key::Tab => (
                AppView { action: app::next_action(self.action), ..self },
                OutcomeView::Stay,
            ),
            Key::BackTab => (
                AppView { action: app::prev_action(self.action), ..self },
                OutcomeView::Stay,
            ),
            Key::Enter => self.decide_action(),
            Key::Backspace => (self.backspace_search(), OutcomeView::Stay),
            Key::Esc => (self.escape(), OutcomeView::Stay),
            Key::Char(c) => if c == ' ' {
                (self.toggle_pick().nav_down(), OutcomeView::Stay)
            } else if c == 'c' && press.control {
                (self, OutcomeView::Quit)
            } else if c == 'q' && self.search.len() == 0 {
                (self, OutcomeView::Quit)
            } else {
                (self.push_search(c), OutcomeView::Stay)
            },
            Key::Other => (self, OutcomeView::Stay),
        }
    }
}

/// Confirms an open prompt.
fn enter_prompt(app: &mut App) -> (r: Outcome)
    ensures
        (final(app)@, r@) == old(app)@.prompt_entered(),
{
    match &app.prompt {
        Prompt::ConfirmDelete { names } => {
            Outcome::ExecDelete { names: names::copy_names(names) }
        },
        Prompt::Rename { old: from, buffer } => {
            Outcome::ExecRename { old: from.clone(), new: buffer.as_str().trim().to_string() }
        },
        Prompt::MoveTo { names, .. } => {
            let names = names::copy_names(names);
            match app.move_selected_project() {
                Some(target) => Outcome::ExecMove { names, target },
                None => {
                    app.cancel_prompt();
                    Outcome::Stay
                },
            }
        },
        Prompt::NewSession { buffer } => {
            let name = buffer.as_str().trim().to_string();
            app.cancel_prompt();
            if name.as_str().is_empty() {
                Outcome::Stay
            } else {
                Outcome::NewSessionNamed { name }
            }
        },
        Prompt::Closed => Outcome::Stay,
    }
}

/// Hands a key to the open prompt: Enter confirms it, Escape closes it, and a
/// question also takes y and n. Control-C ends the program.
pub fn handle_prompt_key(app: &mut App, press: KeyPress) -> (r: Outcome)
    requires
        press.key is Down ==> old(app)@.choice_steps(),
    ensures
        (final(app)@, r@) == old(app)@.prompt_key(press),
{
    match press.key {
        Key::Char(c) => {
            if c == 'c' && press.control {
                return Outcome::Quit;
            }
            match &app.prompt {
                Prompt::ConfirmDelete { names } => {
                    if c == 'y' || c == 'Y' {
                        return Outcome::ExecDelete { names: names::copy_names(names) };
                    }
                    if c == 'n' || c == 'N' {
                        app.cancel_prompt();
                    }
                },
                _ => app.prompt_push(c),
            }
            Outcome::Stay
        },
        Key::Esc => {
            app.cancel_prompt();
            Outcome::Stay
        },
        Key::Enter => enter_prompt(app),
        Key::Up => {
            app.move_prev();
            Outcome::Stay
        },
        Key::Down => {
            app.move_next();
            Outcome::Stay
        },
        Key::Backspace => {
            app.prompt_backspace();
            Outcome::Stay
        },
        _ => Outcome::Stay,
    }
}

/// Hands a key to the list.
pub fn handle_key(app: &mut App, press: KeyPress) -> (r: Outcome)
    requires
        old(app)@.in_range(),
        old(app)@.cursor_valid(),
    ensures
        (final(app)@, r@) == old(app)@.list_key(press),
{
    match press.key {
        Key::Up => {
            app.nav_up();
            Outcome::Stay
        },
        Key::Down => {
            app.nav_down();
            Outcome::Stay
        },
        Key::Tab => {
            app.action = app.action.next();
            assert(app@ =~= old(app)@.list_key(press).0);
            Outcome::Stay
        },
        Key::BackTab => {
            app.action = app.action.prev();
            assert(app@ =~= old(app)@.list_key(press).0);
            Outcome::Stay
        },
        Key::Enter => decide_action(app),
        Key::Backspace => {
            app.backspace_search();
            Outcome::Stay
        },
        Key::Esc => {
            app.escape();
            Outcome::Stay
        },
        Key::Char(c) => {
            if c == ' ' {
                app.toggle_pick();
                app.nav_down();
                Outcome::Stay
            } else if c == 'c' && press.control {
                Outcome::Quit
            } else if c == 'q' && app.search.as_str().is_empty() {
                Outcome::Quit
            } else {
                app.push_search(c);
                Outcome::Stay
            }
        },
        Key::Other => Outcome::Stay,
    }
}

// --- Clicks ---

impl AppView {
    /// What a click does. The action bar comes first: it switches the action,
    /// and runs a bulk action at once where sessions are picked; its part for
    /// the archive changes nothing, as the list has no such action. A marker
    /// toggles the pick of its session. A row takes the cursor; a click on the
    /// row that has it runs the action.
    pub open spec fn clicked(self, col: u16, row: u16, map: MouseMapView) -> (
        AppView,
        OutcomeView,
    ) {
        match map.hit_segment(col, row) {
            Some(Segment::Run(action)) => {
                let switched = AppView { action, ..self };
                if self.picked.len() > 0 && (action is Delete || action is Move) {
                    switched.decide_action()
                } else {
                    (switched, OutcomeView::Stay)
                }
            },
            Some(_) => (self, OutcomeView::Stay),
            None => match map.hit_marker(col, row) {
                Some(k) => (self.toggle_pick_at(k as int), OutcomeView::Stay),
                None => match map.hit_row(col, row) {
                    Some(k) => if self.cursor == k {
                        self.decide_action()
                    } else {
                        (AppView { cursor: k as int, ..self }, OutcomeView::Stay)
                    },
                    None => (self, OutcomeView::Stay),
                },
            },
        }
    }

    /// What the mouse does in the list: scrolling moves the cursor.
    pub open spec fn moused(self, input: MouseInput, map: MouseMapView) -> (AppView, OutcomeView) {
        match input.kind {
            MouseKind::ScrollUp => (self.nav_up(), OutcomeView::Stay),
            MouseKind::ScrollDown => (self.nav_down(), OutcomeView::Stay),
            MouseKind::LeftDown => self.clicked(input.column, input.row, map),
            MouseKind::Other => (self, OutcomeView::Stay),
        }
    }
}

/// Hands a click to the list.
fn click(app: &mut App, col: u16, row: u16, map: &MouseMap) -> (r: Outcome)
    requires
        old(app)@.in_range(),
    ensures
        (final(app)@, r@) == old(app)@.clicked(col, row, map@),
{
    if let Some(segment) = map.hit_segment(col, row) {
        if let Segment::Run(action) = segment {
            app.action = action;
            assert(app@ =~= (AppView { action, ..old(app)@ }));
            let bulk = match action {
                Action::Delete => true,
                Action::Move => true,
                _ => false,
            };
            if !app.picked.is_empty() && bulk {
                return decide_action(app);
            }
        }
        return Outcome::Stay;
    }
    if let Some(k) = map.hit_marker(col, row) {
        app.toggle_pick_at(k);
        return Outcome::Stay;
    }
    if let Some(k) = map.hit_row(col, row) {
        if app.cursor == k {
            return decide_action(app);
        }
        app.cursor = k;
        assert(app@ =~= (AppView { cursor: k as int, ..old(app)@ }));
    }
    Outcome::Stay
}

/// Hands what the mouse did to the list. `map` says where the last frame drew
/// things.
pub fn handle_mouse(app: &mut App, input: MouseInput, map: &MouseMap) -> (r: Outcome)
    requires
        old(app)@.in_range(),
        old(app)@.cursor_valid(),
    ensures
        (final(app)@, r@) == old(app)@.moused(input, map@),
{
    match input.kind {
        MouseKind::ScrollUp => {
            app.nav_up();
            Outcome::Stay
        },
        MouseKind::ScrollDown => {
            app.nav_down();
            Outcome::Stay
        },
        MouseKind::LeftDown => click(app, input.column, input.row, map),
        MouseKind::Other => Outcome::Stay,
    }
}

// --- Both ---

/// What the terminal reports.
#[derive(Clone, Copy, Debug, PartialEq, Eq, Structural)]
pub enum Input {
    Key(KeyPress),
    Mouse(MouseInput),
    /// Anything else.
    Other,
}

impl AppView {
    /// What an input does: an open prompt gets the keys, and the mouse is
    /// ignored while there is one.
    pub open spec fn after(self, input: Input, map: MouseMapView) -> (AppView, OutcomeView) {
        match input {
            Input::Key(press) => if self.prompt is Closed {
                self.list_key(press)
            } else {
                self.prompt_key(press)
            },
            Input::Mouse(mouse) if self.prompt is Closed => self.moused(mouse, map),
            _ => (self, OutcomeView::Stay),
        }
    }
}

/// Hands an input to the prompt where one is open, else to the list.
pub fn handle_input(app: &mut App, input: Input, map: &MouseMap) -> (r: Outcome)
    requires
        old(app)@.in_range(),
        old(app)@.cursor_valid(),
        old(app)@.choice_steps(),
    ensures
        (final(app)@, r@) == old(app)@.after(input, map@),
{
    match input {
        Input::Key(press) => {
            if app.prompt.is_active() {
                handle_prompt_key(app, press)
            } else {
                handle_key(app, press)
            }
        },
        Input::Mouse(mouse) => {
            if app.prompt.is_active() {
                Outcome::Stay
            } else {
                handle_mouse(app, mouse, map)
            }
        },
        Input::Other => Outcome::Stay,
    }
}

// --- Laws ---

impl AppView {
    /// Whether the choice of a target project stands on a project.
    pub open spec fn choice_valid(self) -> bool {
        self.prompt matches PromptView::MoveTo { candidates, selected, .. } ==> 0 <= selected
            < candidates.len()
    }
}

/// Whether every line of the map that shows a row shows one of the first
/// `rows` selectable ones.
pub open spec fn points_into(map: MouseMapView, rows: int) -> bool {
    forall|i: int| #![trigger map.line_rows[i]]
        0 <= i < map.line_rows.len() ==> match map.line_rows[i] {
            Some(k) => k < rows,
            None => true,
        }
}

/// The choice of a target project opens on a project.
proof fn lemma_open_move(app: AppView, names: Seq<Seq<char>>)
    ensures
        app.open_move(names).choice_valid(),
{
    let candidates = prompt::move_candidates(app.sessions);
    let project = if names.len() > 0 {
        order::project_of(names[0])
    } else {
        "other"@
    };
    names::lemma_first_place_found(candidates, project);
}

/// Whatever the user does, the rows stay those of the sessions, the cursor
/// stays on a row and the choice of a target project on a project.
pub proof fn inputs_keep_the_state_valid(app: AppView, input: Input, map: MouseMapView)
    requires
        app.well_formed(),
        app.choice_valid(),
        map.offset >= 0,
        points_into(map, app.selectable.len() as int),
    ensures
        app.after(input, map).0.well_formed(),
        app.after(input, map).0.choice_valid(),
        app.after(input, map).0.sessions == app.sessions,
{
    browse::moving_keeps_the_cursor_valid(app);
    browse::moving_keeps_the_cursor_valid(app.toggle_pick());
    if let Input::Key(press) = input {
        if let Key::Char(c) = press.key {
            browse::moving_keeps_the_cursor_valid(
                AppView { search: app.search.push(c), ..app },
            );
        }
    }
    if app.search.len() > 0 {
        browse::moving_keeps_the_cursor_valid(
            AppView { search: app.search.drop_last(), ..app },
        );
    }
    let reset = AppView { action: Action::Attach, ..app };
    if let Some(names) = app.targets() {
        lemma_open_move(reset, names);
    }
}

/// Control-C ends the program, in the list and in every prompt.
pub proof fn control_c_always_quits(app: AppView, map: MouseMapView)
    ensures
        app.after(Input::Key(KeyPress { key: Key::Char('c'), control: true }), map) == (
            app,
            OutcomeView::Quit,
        ),
{
}

/// Nothing else ends the program but q in a list without a search.
pub proof fn what_quits(app: AppView, input: Input, map: MouseMapView)
    requires
        app.after(input, map).1 is Quit,
    ensures
        ({
            ||| input matches Input::Key(press) && press.key == Key::Char('c') && press.control
            ||| input matches Input::Key(press) && press.key == Key::Char('q')
                && app.prompt is Closed && app.search.len() == 0
        }),
{
}

/// Sessions are deleted only where the question whether to delete exactly
/// these is open, and answered by Enter or y.
pub proof fn deleting_is_confirmed(app: AppView, input: Input, map: MouseMapView)
    requires
        app.after(input, map).1 is ExecDelete,
    ensures
        app.prompt == (PromptView::ConfirmDelete {
            names: app.after(input, map).1->ExecDelete_names,
        }),
        input matches Input::Key(press) && (press.key is Enter || press.key == Key::Char('y')
            || press.key == Key::Char('Y')),
{
}

/// Sessions are renamed and moved only by Enter in the prompt for that, and it
/// is the sessions that the prompt was opened for.
pub proof fn relabeling_is_confirmed(app: AppView, input: Input, map: MouseMapView)
    ensures
        app.after(input, map).1 matches OutcomeView::ExecRename { old: from, new } ==> (
            app.prompt matches PromptView::Rename { old: asked, buffer } && asked == from && new
                == text::trimmed(buffer)
        ),
        app.after(input, map).1 matches OutcomeView::ExecMove { names, target } ==> (
            app.prompt matches PromptView::MoveTo { names: asked, candidates, .. } && asked == names
                && candidates.contains(target)
        ),
{
    if app.prompt is MoveTo && app.move_selected() is Some {
        let at = app.prompt->MoveTo_selected;
        assert(app.prompt->MoveTo_candidates.contains(app.prompt->MoveTo_candidates[at]));
    }
}

/// A new session never goes without a name.
pub proof fn new_sessions_are_named(app: AppView, input: Input, map: MouseMapView)
    ensures
        app.after(input, map).1 matches OutcomeView::NewSessionNamed { name } ==> name.len() > 0,
{
}

/// While a prompt is open, nothing but the prompt changes.
pub proof fn prompts_are_modal(app: AppView, input: Input, map: MouseMapView)
    requires
        !(app.prompt is Closed),
    ensures
        app.after(input, map).0.with_prompt(app.prompt) == app,
        input is Mouse ==> app.after(input, map) == (app, OutcomeView::Stay),
{
}

/// After an action was run, the next one is to attach, and the picked names,
/// the search and the cursor are as they were.
pub proof fn acting_resets_the_action(app: AppView)
    ensures
        app.decide_action().0.action == Action::Attach,
        app.decide_action().0 == (AppView {
            action: Action::Attach,
            prompt: app.decide_action().0.prompt,
            ..app
        }),
{
}

/// Enter on a session attaches to it, or creates it, unless another action was
/// chosen before.
pub proof fn enter_attaches(app: AppView, map: MouseMapView)
    requires
        app.prompt is Closed,
        app.action == Action::Attach,
        app.current_session() is Some,
    ensures
        ({
            let s = app.current_session()->0;
            let press = KeyPress { key: Key::Enter, control: false };
            &&& app.after(Input::Key(press), map).0 == app
            &&& app.after(Input::Key(press), map).1 matches OutcomeView::Attach(action) && {
                &&& action.session_name() == s.name
                &&& s.running <==> action is Attach
            }
        }),
{
}

/// A click on a bulk action where sessions are picked does what choosing the
/// action and pressing Enter does.
pub proof fn bulk_clicks_match_the_keyboard(app: AppView, col: u16, row: u16, map: MouseMapView)
    requires
        map.hit_action(col, row) is Some,
        map.hit_action(col, row)->0 is Move || map.hit_action(col, row)->0 is Delete,
        app.picked.len() > 0,
    ensures
        app.clicked(col, row, map) == (AppView {
            action: map.hit_action(col, row)->0,
            ..app
        }).list_key(KeyPress { key: Key::Enter, control: false }),
{
}

/// The entry for a new session can only be used to start one: renaming does
/// nothing there, nor do the bulk actions where nothing is picked.
pub proof fn the_new_entry_is_no_session(app: AppView)
    requires
        app.on_new(),
        app.prompt is Closed,
    ensures
        app.action is Attach ==> app.decide_action().0.prompt == (PromptView::NewSession {
            buffer: Seq::empty(),
        }),
        app.action is Rename ==> app.decide_action().0.prompt is Closed,
        !(app.action is Attach) && app.picked.len() == 0 ==> app.decide_action().0.prompt is Closed,
        app.decide_action().1 is Stay,
{
}

/// Two clicks on one row, beside its marker, run the action on it.
pub proof fn second_click_runs_the_action(app: AppView, col: u16, row: u16, map: MouseMapView)
    requires
        map.hit_segment(col, row) is None,
        map.hit_marker(col, row) is None,
        map.hit_row(col, row) is Some,
        app.cursor != map.hit_row(col, row)->0,
    ensures
        ({
            let first = app.clicked(col, row, map);
            &&& first.1 is Stay
            &&& first.0 == (AppView { cursor: map.hit_row(col, row)->0 as int, ..app })
            &&& first.0.clicked(col, row, map) == first.0.decide_action()
        }),
{
}

/// Two clicks on one marker leave the same sessions picked as before.
pub proof fn second_marker_click_undoes_the_first(
    app: AppView,
    col: u16,
    row: u16,
    map: MouseMapView,
)
    requires
        map.hit_segment(col, row) is None,
        map.hit_marker(col, row) is Some,
        app.picked.no_duplicates(),
    ensures
        app.clicked(col, row, map).0.clicked(col, row, map).0.picked.to_set()
            == app.picked.to_set(),
{
    let k = map.hit_marker(col, row)->0 as int;
    if 0 <= k < app.selectable.len() {
        if let RowView::Session(i) = app.rows[app.selectable[k]] {
            select::toggling_twice(app.picked, app.sessions[i].name);
        }
    }
}

/// The input of a key.
pub open spec fn key(key: Key) -> Input {
    Input::Key(KeyPress { key, control: false })
}

/// Enter on a session hands the terminal to it: a running one is attached to,
/// one that does not run is created, in its directory where it has one. Enter on
/// the entry for a new session asks for its name. Nothing else changes.
pub proof fn enter_opens_the_row(app: AppView, map: MouseMapView, i: int)
    requires
        app.prompt is Closed,
        app.action is Attach,
        0 <= app.cursor < app.selectable.len(),
    ensures
        app.rows[app.selectable[app.cursor]] == RowView::Session(i) ==> {
            let s = app.sessions[i];
            let outcome = app.after(key(Key::Enter), map).1;
            &&& app.after(key(Key::Enter), map).0 == app
            &&& s.running ==> outcome == OutcomeView::Attach(
                SessionActionView::Attach { name: s.name },
            )
            &&& !s.running && s.dir.len() > 0 ==> outcome == OutcomeView::Attach(
                SessionActionView::NewInDir { name: s.name, dir: s.dir },
            )
            &&& !s.running && s.dir.len() == 0 ==> outcome == OutcomeView::Attach(
                SessionActionView::New { name: s.name },
            )
        },
        app.rows[app.selectable[app.cursor]] is New ==> app.after(key(Key::Enter), map) == (
            AppView { prompt: PromptView::NewSession { buffer: Seq::empty() }, ..app },
            OutcomeView::Stay,
        ),
{
}

/// The other actions ask before they do anything: renaming for a new name of the
/// session under the cursor, starting with the old one; moving for a project and
/// deleting for confirmation, for all picked sessions, or where none is picked
/// for the one under the cursor.
pub proof fn enter_asks_for_the_rest(app: AppView, map: MouseMapView, i: int)
    requires
        app.prompt is Closed,
    ensures
        ({
            let after = app.after(key(Key::Enter), map);
            let here = 0 <= app.cursor < app.selectable.len() && app.rows[app.selectable[app.cursor]]
                == RowView::Session(i);
            let reset = AppView { action: Action::Attach, ..app };
            &&& app.action is Rename && here ==> after.0 == (AppView {
                prompt: PromptView::Rename {
                    old: app.sessions[i].name,
                    buffer: app.sessions[i].name,
                },
                ..reset
            })
            &&& app.action is Delete && app.picked.len() > 0 ==> after.0 == (AppView {
                prompt: PromptView::ConfirmDelete { names: app.picked },
                ..reset
            })
            &&& app.action is Delete && app.picked.len() == 0 && here ==> after.0 == (AppView {
                prompt: PromptView::ConfirmDelete { names: seq![app.sessions[i].name] },
                ..reset
            })
            &&& app.action is Move && app.picked.len() > 0 ==> (after.0.prompt matches
                PromptView::MoveTo { names, .. } && names == app.picked)
            &&& app.action is Move && app.picked.len() == 0 && here ==> (after.0.prompt matches
                PromptView::MoveTo { names, .. } && names == seq![app.sessions[i].name])
            &&& app.action is Move ==> after.0 == (AppView { prompt: after.0.prompt, ..reset })
            &&& !(app.action is Attach) ==> after.1 is Stay
        }),
{
}

/// Enter confirms the open prompt: it deletes the sessions that were asked
/// about, renames the session to what was typed, moves the sessions to the
/// chosen project, or starts a session of the name that was typed; what was
/// typed counts without the white space round it.
pub proof fn enter_confirms_the_prompt(app: AppView, map: MouseMapView)
    ensures
        app.prompt matches PromptView::ConfirmDelete { names } ==> app.after(key(Key::Enter), map)
            == (app, OutcomeView::ExecDelete { names }),
        app.prompt matches PromptView::Rename { old: from, buffer } ==> app.after(
            key(Key::Enter),
            map,
        ) == (app, OutcomeView::ExecRename { old: from, new: text::trimmed(buffer) }),
        app.prompt matches PromptView::MoveTo { names, candidates, selected } ==> 0 <= selected
            < candidates.len() ==> app.after(key(Key::Enter), map) == (
            app,
            OutcomeView::ExecMove { names, target: candidates[selected] },
        ),
        app.prompt matches PromptView::NewSession { buffer } ==> app.after(key(Key::Enter), map)
            == (
            AppView { prompt: PromptView::Closed, ..app },
            if text::trimmed(buffer).len() > 0 {
                OutcomeView::NewSessionNamed { name: text::trimmed(buffer) }
            } else {
                OutcomeView::Stay
            },
        ),
{
}

/// The question whether to delete is answered by y and n, small or capital; Esc
/// closes every prompt. Other characters answer nothing.
pub proof fn prompts_are_answered(app: AppView, map: MouseMapView, c: char, control: bool)
    requires
        !(app.prompt is Closed),
        !(c == 'c' && control),
    ensures
        app.after(key(Key::Esc), map) == (
            AppView { prompt: PromptView::Closed, ..app },
            OutcomeView::Stay,
        ),
        app.prompt matches PromptView::ConfirmDelete { names } ==> app.after(
            Input::Key(KeyPress { key: Key::Char(c), control }),
            map,
        ) == (if c == 'y' || c == 'Y' {
            (app, OutcomeView::ExecDelete { names })
        } else if c == 'n' || c == 'N' {
            (AppView { prompt: PromptView::Closed, ..app }, OutcomeView::Stay)
        } else {
            (app, OutcomeView::Stay)
        }),
        !(app.prompt is ConfirmDelete) ==> app.after(
            Input::Key(KeyPress { key: Key::Char(c), control }),
            map,
        ) == (app.prompt_push(c), OutcomeView::Stay),
        app.after(key(Key::Backspace), map) == (app.prompt_backspace(), OutcomeView::Stay),
        app.after(key(Key::Down), map) == (app.move_next(), OutcomeView::Stay),
        app.after(key(Key::Up), map) == (app.move_prev(), OutcomeView::Stay),
        app.after(key(Key::Tab), map) == (app, OutcomeView::Stay),
        app.after(key(Key::BackTab), map) == (app, OutcomeView::Stay),
{
}

/// What keys do in the list: the arrows and the wheel move the cursor, Tab and
/// Shift-Tab go through the actions, Space picks the session under the cursor
/// and moves on, and Esc clears. Any other character is searched for, but for q
/// where nothing is searched for yet.
pub proof fn keys_of_the_list(app: AppView, map: MouseMapView, c: char, col: u16, row: u16)
    requires
        app.prompt is Closed,
    ensures
        app.after(key(Key::Up), map) == (app.nav_up(), OutcomeView::Stay),
        app.after(key(Key::Down), map) == (app.nav_down(), OutcomeView::Stay),
        app.after(
            Input::Mouse(MouseInput { kind: MouseKind::ScrollUp, column: col, row }),
            map,
        ) == app.after(key(Key::Up), map),
        app.after(
            Input::Mouse(MouseInput { kind: MouseKind::ScrollDown, column: col, row }),
            map,
        ) == app.after(key(Key::Down), map),
        app.after(
            Input::Mouse(MouseInput { kind: MouseKind::Other, column: col, row }),
            map,
        ) == (app, OutcomeView::Stay),
        app.after(key(Key::Tab), map) == (
            AppView { action: app::next_action(app.action), ..app },
            OutcomeView::Stay,
        ),
        app.after(key(Key::BackTab), map).0.after(key(Key::Tab), map) == (app, OutcomeView::Stay),
        app.after(key(Key::Esc), map) == (app.escape(), OutcomeView::Stay),
        app.after(key(Key::Backspace), map) == (app.backspace_search(), OutcomeView::Stay),
        app.after(key(Key::Char(' ')), map) == (app.toggle_pick().nav_down(), OutcomeView::Stay),
        c != ' ' && !(c == 'q' && app.search.len() == 0) ==> app.after(key(Key::Char(c)), map) == (
            app.push_search(c),
            OutcomeView::Stay,
        ),
        app.search.len() == 0 ==> app.after(key(Key::Char('q')), map) == (app, OutcomeView::Quit),
        app.after(key(Key::Other), map) == (app, OutcomeView::Stay),
        app.after(Input::Other, map) == (app, OutcomeView::Stay),
{
    app::actions_go_round(app.action, app.action);
    assert(app.after(key(Key::BackTab), map).0.after(key(Key::Tab), map).0 =~= app);
}

/// What a click does in the list. One on an action of the bar switches to it,
/// and runs it at once where it is for the picked sessions and there are some.
/// One on a marker picks its session, one on another row takes the cursor there,
/// one on the row of the cursor runs the action, and one on nothing does
/// nothing.
pub proof fn clicks_in_the_list(app: AppView, map: MouseMapView, col: u16, row: u16)
    requires
        app.prompt is Closed,
    ensures
        ({
            let click = Input::Mouse(MouseInput { kind: MouseKind::LeftDown, column: col, row });
            let after = app.after(click, map);
            match map.hit_segment(col, row) {
                Some(Segment::Run(action)) => {
                    let switched = AppView { action, ..app };
                    after == if app.picked.len() > 0 && (action is Delete || action is Move) {
                        switched.after(key(Key::Enter), map)
                    } else {
                        (switched, OutcomeView::Stay)
                    }
                },
                Some(_) => after == (app, OutcomeView::Stay),
                None => match (map.hit_marker(col, row), map.hit_row(col, row)) {
                    (Some(k), _) => after == (app.toggle_pick_at(k as int), OutcomeView::Stay),
                    (None, Some(k)) => after == if app.cursor == k {
                        app.after(key(Key::Enter), map)
                    } else {
                        (AppView { cursor: k as int, ..app }, OutcomeView::Stay)
                    },
                    (None, None) => after == (app, OutcomeView::Stay),
                },
            }
        }),
{
}

}
