//! Modal prompts: opening, editing and closing them.
use vstd::prelude::*;
use vstd::string::*;
use crate::app::{App, AppView, Prompt, PromptView};
use crate::app;
use crate::names;
use crate::order;
use crate::ssh;
use crate::ssh::SessionView;
use crate::text;

verus! {

// --- The projects in use ---

/// The projects of the sessions that have one, in the order of the list. A
/// project called `other` is none.
pub open spec fn project_prefixes(sessions: Seq<SessionView>) -> Seq<Seq<char>>
    decreases sessions.len(),
{
    if sessions.len() == 0 {
        Seq::empty()
    } else {
        let rest = project_prefixes(sessions.drop_last());
        match text::split_once(sessions.last().name, '/') {
            Some((project, _)) if project != "other"@ => rest.push(project),
            _ => rest,
        }
    }
}

/// The projects in use, each once, in ascending order.
pub open spec fn projects_in_use(sessions: Seq<SessionView>) -> Seq<Seq<char>> {
    names::sorted_set(project_prefixes(sessions))
}

impl App {
    /// The projects in use, each once, in ascending order.
    pub fn project_names(&self) -> (r: Vec<String>)
        ensures
            text::texts(r@) == projects_in_use(self@.sessions),
            names::is_sorted_set(text::texts(r@), project_prefixes(self@.sessions)),
    {
        let ghost all = self@.sessions;
        let mut prefixes: Vec<String> = Vec::new();
        let mut i: usize = 0;
        assert(text::texts(prefixes@) =~= project_prefixes(all.take(0)));
        while i < self.sessions.len()
            invariant
                i <= self.sessions.len(),
                all == ssh::session_views(self.sessions@),
                text::texts(prefixes@) == project_prefixes(all.take(i as int)),
            decreases self.sessions.len() - i,
        {
            assert(all.take(i + 1).drop_last() =~= all.take(i as int));
            assert(all.take(i + 1).last() == self.sessions@[i as int]@);
            let ghost before = text::texts(prefixes@);
            let list = text::char_list(self.sessions[i].name.as_str());
            if let Some((project, _)) = text::split_list(&list, '/') {
                let project = text::string_of(&project);
                if !text::same_text(project.as_str(), "other") {
                    prefixes.push(project);
                    assert(text::texts(prefixes@) =~= before.push(project@));
                }
            }
            i += 1;
        }
        assert(all.take(i as int) =~= all);
        names::sort_names(&prefixes)
    }
}

// --- Opening a prompt ---

/// What the choice of a target project offers: the projects in use, and
/// `other` to leave them all.
pub open spec fn move_candidates(sessions: Seq<SessionView>) -> Seq<Seq<char>> {
    projects_in_use(sessions).push("other"@)
}

/// Where the choice of a target project starts: on the project of the first
/// session that moves.
pub open spec fn move_start(candidates: Seq<Seq<char>>, names: Seq<Seq<char>>) -> int {
    let project = if names.len() > 0 {
        order::project_of(names[0])
    } else {
        "other"@
    };
    let at = names::first_place(candidates, project);
    if at < candidates.len() {
        at
    } else {
        0
    }
}

impl AppView {
    /// The state with the given prompt open.
    pub open spec fn with_prompt(self, prompt: PromptView) -> AppView {
        AppView { prompt, ..self }
    }

    /// The state with the choice of a target project open.
    pub open spec fn open_move(self, names: Seq<Seq<char>>) -> AppView {
        let candidates = move_candidates(self.sessions);
        self.with_prompt(
            PromptView::MoveTo { names, candidates, selected: move_start(candidates, names) },
        )
    }
}

impl App {
    /// Opens the input of the name of a new session.
    pub fn open_new_session(&mut self)
        ensures
            final(self)@ == old(self)@.with_prompt(
                PromptView::NewSession { buffer: Seq::empty() },
            ),
    {
        self.prompt = Prompt::NewSession { buffer: String::new() };
        assert(self@ =~= old(self)@.with_prompt(PromptView::NewSession { buffer: Seq::empty() }));
    }

    /// Opens the input of a new name for the session `old_name`.
    pub fn open_rename(&mut self, old_name: String)
        ensures
            final(self)@ == old(self)@.with_prompt(
                PromptView::Rename { old: old_name@, buffer: old_name@ },
            ),
    {
        self.prompt = Prompt::Rename { buffer: old_name.clone(), old: old_name };
    }

    /// Opens the choice of the project that the named sessions move to.
    pub fn open_move(&mut self, names: Vec<String>)
        ensures
            final(self)@ == old(self)@.open_move(text::texts(names@)),
    {
        let mut candidates = self.project_names();
        let ghost in_use = text::texts(candidates@);
        candidates.push("other".to_string());
        assert(text::texts(candidates@) =~= in_use.push("other"@));
        let project = if names.len() > 0 {
            assert(text::texts(names@)[0] == names@[0]@);
            order::project_name(names[0].as_str())
        } else {
            "other".to_string()
        };
        let selected: usize = match names::position(&candidates, project.as_str()) {
            Some(i) => i,
            None => 0,
        };
        self.prompt = Prompt::MoveTo { names, candidates, selected };
    }

    /// Opens the question whether to delete the named sessions.
    pub fn open_confirm_delete(&mut self, names: Vec<String>)
        ensures
            final(self)@ == old(self)@.with_prompt(
                PromptView::ConfirmDelete { names: text::texts(names@) },
            ),
    {
        self.prompt = Prompt::ConfirmDelete { names };
    }

    /// Closes the prompt.
    pub fn cancel_prompt(&mut self)
        ensures
            final(self)@ == old(self)@.with_prompt(PromptView::Closed),
    {
        self.prompt = Prompt::Closed;
    }
}

// --- Using a prompt ---

impl AppView {
    /// The state with the previous target project chosen; before the first
    /// comes the last.
    pub open spec fn move_prev(self) -> AppView {
        match self.prompt {
            PromptView::MoveTo { names, candidates, selected } if candidates.len() > 0 => {
                let selected = if selected == 0 {
                    candidates.len() - 1
                } else {
                    selected - 1
                };
                self.with_prompt(PromptView::MoveTo { names, candidates, selected })
            },
            _ => self,
        }
    }

    /// The state with the next target project chosen; behind the last comes
    /// the first.
    pub open spec fn move_next(self) -> AppView {
        match self.prompt {
            PromptView::MoveTo { names, candidates, selected } if candidates.len() > 0 => {
                let selected = (selected + 1) % (candidates.len() as int);
                self.with_prompt(PromptView::MoveTo { names, candidates, selected })
            },
            _ => self,
        }
    }

    /// Whether the choice of a target project has a next one, and a number for
    /// it.
    pub open spec fn choice_steps(self) -> bool {
        self.prompt matches PromptView::MoveTo { candidates, selected, .. } ==> candidates.len()
            > 0 ==> selected < usize::MAX
    }

    /// The chosen target project.
    pub open spec fn move_selected(self) -> Option<Seq<char>> {
        match self.prompt {
            PromptView::MoveTo { candidates, selected, .. } => if 0 <= selected
                < candidates.len() {
                Some(candidates[selected])
            } else {
                None
            },
            _ => None,
        }
    }

    /// The state with `c` added to the input of the prompt, where it has one.
    pub open spec fn prompt_push(self, c: char) -> AppView {
        match self.prompt {
            PromptView::Rename { old: from, buffer } => self.with_prompt(
                PromptView::Rename { old: from, buffer: buffer.push(c) },
            ),
            PromptView::NewSession { buffer } => self.with_prompt(
                PromptView::NewSession { buffer: buffer.push(c) },
            ),
            _ => self,
        }
    }

    /// The state with the last character of the input of the prompt taken off.
    pub open spec fn prompt_backspace(self) -> AppView {
        match self.prompt {
            PromptView::Rename { old: from, buffer } if buffer.len() > 0 => self.with_prompt(
                PromptView::Rename { old: from, buffer: buffer.drop_last() },
            ),
            PromptView::NewSession { buffer } if buffer.len() > 0 => self.with_prompt(
                PromptView::NewSession { buffer: buffer.drop_last() },
            ),
            _ => self,
        }
    }
}

impl App {
    /// Chooses the previous target project. Nothing happens in other prompts.
    pub fn move_prev(&mut self)
        ensures
            final(self)@ == old(self)@.move_prev(),
    {
        if let Prompt::MoveTo { candidates, selected, .. } = &mut self.prompt {
            if candidates.len() > 0 {
                *selected = if *selected == 0 {
                    candidates.len() - 1
                } else {
                    *selected - 1
                };
            }
        }
        assert(self@ =~= old(self)@.move_prev());
    }

    /// Chooses the next target project. Nothing happens in other prompts.
    pub fn move_next(&mut self)
        requires
            old(self)@.choice_steps(),
        ensures
            final(self)@ == old(self)@.move_next(),
    {
        if let Prompt::MoveTo { candidates, selected, .. } = &mut self.prompt {
            if candidates.len() > 0 {
                *selected = (*selected + 1) % candidates.len();
            }
        }
        assert(self@ =~= old(self)@.move_next());
    }

    /// The chosen target project.
    pub fn move_selected_project(&self) -> (r: Option<String>)
        ensures
            app::text_option(r) == self@.move_selected(),
    {
        match &self.prompt {
            Prompt::MoveTo { candidates, selected, .. } => {
                if *selected < candidates.len() {
                    assert(text::texts(candidates@)[*selected as int]
                        == candidates@[*selected as int]@);
                    Some(candidates[*selected].clone())
                } else {
                    None
                }
            },
            _ => None,
        }
    }

    /// Adds a character to the input of the prompt. Nothing happens where the
    /// prompt has none.
    pub fn prompt_push(&mut self, c: char)
        ensures
            final(self)@ == old(self)@.prompt_push(c),
    {
        match &mut self.prompt {
            Prompt::Rename { buffer, .. } => buffer.push(c),
            Prompt::NewSession { buffer } => buffer.push(c),
            _ => {},
        }
        assert(self@ =~= old(self)@.prompt_push(c));
    }

    /// Takes the last character off the input of the prompt.
    pub fn prompt_backspace(&mut self)
        ensures
            final(self)@ == old(self)@.prompt_backspace(),
    {
        match &mut self.prompt {
            Prompt::Rename { buffer, .. } => {
                buffer.pop();
            },
            Prompt::NewSession { buffer } => {
                buffer.pop();
            },
            _ => {},
        }
        assert(self@ =~= old(self)@.prompt_backspace());
    }
}

// --- Laws ---

/// The previous choice undoes the next one and the other way round.
pub proof fn choices_go_round(app: AppView)
    requires
        app.prompt matches PromptView::MoveTo { candidates, selected, .. } ==> 0 <= selected
            < candidates.len(),
    ensures
        app.move_next().move_prev() == app,
        app.move_prev().move_next() == app,
        app.move_next().move_selected() is Some == app.move_selected() is Some,
{
    if let PromptView::MoveTo { candidates, selected, .. } = app.prompt {
        let len = candidates.len() as int;
        if selected + 1 < len {
            vstd::arithmetic::div_mod::lemma_small_mod((selected + 1) as nat, len as nat);
        }
        vstd::arithmetic::div_mod::lemma_mod_self_0(len);
        vstd::arithmetic::div_mod::lemma_small_mod(selected as nat, len as nat);
        assert(app.move_next().move_prev() =~= app);
        assert(app.move_prev().move_next() =~= app);
    }
}

/// Taking a character off an input undoes typing it.
pub proof fn input_backspace_undoes_typing(app: AppView, c: char)
    requires
        app.prompt is Rename || app.prompt is NewSession,
    ensures
        app.prompt_push(c).prompt_backspace() == app,
{
    match app.prompt {
        PromptView::Rename { old: from, buffer } => {
            assert(buffer.push(c).drop_last() =~= buffer);
        },
        PromptView::NewSession { buffer } => {
            assert(buffer.push(c).drop_last() =~= buffer);
        },
        _ => {},
    }
    assert(app.prompt_push(c).prompt_backspace() =~= app);
}

/// The choice of a target project offers the project of every session, and at
/// the end `other`. It offers nothing twice.
pub proof fn every_project_is_offered(sessions: Seq<SessionView>, i: int)
    requires
        0 <= i < sessions.len(),
    ensures
        move_candidates(sessions).contains(order::project_of(sessions[i].name)),
        move_candidates(sessions).last() == "other"@,
        move_candidates(sessions).no_duplicates(),
{
    let prefixes = project_prefixes(sessions);
    let in_use = projects_in_use(sessions);
    let all = move_candidates(sessions);
    names::sorted_set_exists(prefixes);
    assert(all[in_use.len() as int] == "other"@);
    let name = sessions[i].name;
    names::lemma_sorted_distinct(in_use, prefixes);
    assert(!in_use.contains("other"@)) by {
        lemma_no_other(sessions);
    }
    if order::project_of(name) != "other"@ {
        lemma_prefix_listed(sessions, i);
        assert(in_use.contains(order::project_of(name)));
        let k = choose|k: int| 0 <= k < in_use.len() && in_use[k] == order::project_of(name);
        assert(all[k] == order::project_of(name));
    }
}

/// No project is called `other`.
proof fn lemma_no_other(sessions: Seq<SessionView>)
    ensures
        !project_prefixes(sessions).contains("other"@),
    decreases sessions.len(),
{
    if sessions.len() > 0 {
        lemma_no_other(sessions.drop_last());
        let rest = project_prefixes(sessions.drop_last());
        let all = project_prefixes(sessions);
        if all.contains("other"@) {
            let k = choose|k: int| 0 <= k < all.len() && all[k] == "other"@;
            assert(rest[k] == "other"@);
        }
    }
}

/// The project of a session that has one is among the projects.
proof fn lemma_prefix_listed(sessions: Seq<SessionView>, i: int)
    requires
        0 <= i < sessions.len(),
        order::project_of(sessions[i].name) != "other"@,
    ensures
        project_prefixes(sessions).contains(order::project_of(sessions[i].name)),
    decreases sessions.len(),
{
    let all = project_prefixes(sessions);
    if i == sessions.len() - 1 {
        assert(all[all.len() - 1] == order::project_of(sessions[i].name));
    } else {
        let rest = sessions.drop_last();
        assert(rest[i] == sessions[i]);
        lemma_prefix_listed(rest, i);
        let before = project_prefixes(rest);
        let project = order::project_of(sessions[i].name);
        let k = choose|k: int| 0 <= k < before.len() && before[k] == project;
        assert(all[k] == project);
    }
}

/// The choice of a target project starts on the project that the first of the
/// sessions is in.
pub proof fn the_choice_starts_where_the_session_is(
    app: AppView,
    names: Seq<Seq<char>>,
    i: int,
)
    requires
        names.len() > 0,
        0 <= i < app.sessions.len(),
        app.sessions[i].name == names[0],
    ensures
        app.open_move(names).move_selected() == Some(order::project_of(names[0])),
{
    every_project_is_offered(app.sessions, i);
    names::lemma_first_place_found(
        move_candidates(app.sessions),
        order::project_of(names[0]),
    );
}

/// The next choice is the one below, behind the last the first; the previous one
/// is the one above, before the first the last. The names and what is offered
/// stay, and so does everything but the prompt.
pub proof fn choices_go_by_one(app: AppView)
    requires
        app.prompt matches PromptView::MoveTo { candidates, selected, .. } && 0 <= selected
            < candidates.len(),
    ensures
        ({
            let names = app.prompt->MoveTo_names;
            let candidates = app.prompt->MoveTo_candidates;
            let at = app.prompt->MoveTo_selected;
            let below = if at + 1 < candidates.len() {
                at + 1
            } else {
                0
            };
            let above = if at > 0 {
                at - 1
            } else {
                candidates.len() - 1
            };
            &&& app.move_next() == (AppView {
                prompt: PromptView::MoveTo { names, candidates, selected: below },
                ..app
            })
            &&& app.move_prev() == (AppView {
                prompt: PromptView::MoveTo { names, candidates, selected: above },
                ..app
            })
            &&& app.move_selected() == Some(candidates[at])
        }),
{
    let len = app.prompt->MoveTo_candidates.len() as int;
    let at = app.prompt->MoveTo_selected;
    if at + 1 < len {
        vstd::arithmetic::div_mod::lemma_small_mod((at + 1) as nat, len as nat);
    } else {
        vstd::arithmetic::div_mod::lemma_mod_self_0(len);
    }
}

/// What is typed into an input is added at its end, and what is taken off is its
/// last character; an empty input stays. The name that is to be changed stays,
/// and so does everything but the prompt. A prompt without an input, and a
/// choice in one without choices, does not change.
pub proof fn inputs_change_at_their_end(app: AppView, c: char)
    ensures
        app.prompt matches PromptView::Rename { old: from, buffer } ==> {
            &&& app.prompt_push(c) == (AppView {
                prompt: PromptView::Rename { old: from, buffer: buffer.push(c) },
                ..app
            })
            &&& buffer.len() > 0 ==> app.prompt_backspace() == (AppView {
                prompt: PromptView::Rename { old: from, buffer: buffer.drop_last() },
                ..app
            })
            &&& buffer.len() == 0 ==> app.prompt_backspace() == app
        },
        app.prompt matches PromptView::NewSession { buffer } ==> {
            &&& app.prompt_push(c) == (AppView {
                prompt: PromptView::NewSession { buffer: buffer.push(c) },
                ..app
            })
            &&& buffer.len() > 0 ==> app.prompt_backspace() == (AppView {
                prompt: PromptView::NewSession { buffer: buffer.drop_last() },
                ..app
            })
            &&& buffer.len() == 0 ==> app.prompt_backspace() == app
        },
        !(app.prompt is Rename) && !(app.prompt is NewSession) ==> app.prompt_push(c) == app
            && app.prompt_backspace() == app,
        !(app.prompt is MoveTo) ==> app.move_next() == app && app.move_prev() == app
            && app.move_selected() is None,
{
}

/// Moving sessions is offered to the projects that are in use, in the order of
/// their names, and last of all to `other`. No other project is offered. The
/// choice is for the sessions that were asked for, and nothing but the prompt
/// changes.
pub proof fn only_projects_in_use_are_offered(app: AppView, names: Seq<Seq<char>>, k: int)
    requires
        0 <= k < move_candidates(app.sessions).len() - 1,
    ensures
        exists|i: int|
            0 <= i < app.sessions.len() && order::project_of((#[trigger] app.sessions[i]).name)
                == move_candidates(app.sessions)[k],
        move_candidates(app.sessions)[k] != "other"@,
        forall|j: int|
            0 <= j < k ==> text::text_before(
                #[trigger] move_candidates(app.sessions)[j],
                move_candidates(app.sessions)[k],
            ),
        app.open_move(names).prompt matches PromptView::MoveTo { names: asked, candidates, .. }
            && asked == names && candidates == move_candidates(app.sessions),
        app.open_move(names) == (AppView { prompt: app.open_move(names).prompt, ..app }),
{
    let prefixes = project_prefixes(app.sessions);
    let in_use = projects_in_use(app.sessions);
    names::sorted_set_exists(prefixes);
    assert(move_candidates(app.sessions)[k] == in_use[k]);
    assert(in_use.contains(in_use[k]));
    lemma_no_other(app.sessions);
    lemma_prefix_of_session(app.sessions, in_use[k]);
    assert forall|j: int| 0 <= j < k implies text::text_before(
        #[trigger] move_candidates(app.sessions)[j],
        move_candidates(app.sessions)[k],
    ) by {
        assert(move_candidates(app.sessions)[j] == in_use[j]);
    }
}

/// Each of the projects is that of a session.
proof fn lemma_prefix_of_session(sessions: Seq<SessionView>, project: Seq<char>)
    requires
        project_prefixes(sessions).contains(project),
    ensures
        exists|i: int|
            0 <= i < sessions.len() && order::project_of((#[trigger] sessions[i]).name) == project,
    decreases sessions.len(),
{
    let all = project_prefixes(sessions);
    let rest = sessions.drop_last();
    let before = project_prefixes(rest);
    let k = choose|k: int| 0 <= k < all.len() && all[k] == project;
    if k < before.len() {
        assert(before[k] == project);
        lemma_prefix_of_session(rest, project);
        let i = choose|i: int|
            0 <= i < rest.len() && order::project_of((#[trigger] rest[i]).name) == project;
        assert(sessions[i] == rest[i]);
    } else {
        assert(sessions[sessions.len() - 1] == sessions.last());
        assert(order::project_of(sessions[sessions.len() - 1].name) == project);
    }
}

/// The choice of a target project starts on the project of the first of the
/// sessions, where it is offered, and else on the first that is.
pub proof fn the_choice_starts_on_the_project_or_the_first(app: AppView, names: Seq<Seq<char>>, k: int)
    requires
        names.len() > 0,
        0 <= k < move_candidates(app.sessions).len(),
    ensures
        ({
            let candidates = move_candidates(app.sessions);
            let project = order::project_of(names[0]);
            &&& candidates[k] == project && (forall|j: int|
                0 <= j < k ==> candidates[j] != project) ==> app.open_move(names).prompt == (
            PromptView::MoveTo { names, candidates, selected: k })
            &&& !candidates.contains(project) ==> app.open_move(names).prompt == (
            PromptView::MoveTo { names, candidates, selected: 0 })
        }),
{
    let candidates = move_candidates(app.sessions);
    let project = order::project_of(names[0]);
    names::lemma_first_place_found(candidates, project);
    if candidates[k] == project && (forall|j: int| 0 <= j < k ==> candidates[j] != project) {
        names::lemma_first_place(candidates, project, k);
    }
}

}
