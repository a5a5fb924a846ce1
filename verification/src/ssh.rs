//! Remote tmux sessions and the commands that act on them over ssh.
use vstd::prelude::*;
use vstd::string::*;
use crate::quote;

verus! {

/// A tmux session: one that the configuration names, one that runs on the
/// server, or both.
#[derive(Clone, Debug)]
pub struct Session {
    pub name: String,
    pub running: bool,
    pub created: String,
    pub activity: String,
    pub activity_ts: i64,
    pub dir: String,
}

/// What a [`Session`] says, with its texts as characters.
#[verifier::ext_equal]
pub struct SessionView {
    pub name: Seq<char>,
    pub running: bool,
    pub created: Seq<char>,
    pub activity: Seq<char>,
    pub activity_ts: i64,
    pub dir: Seq<char>,
}

impl View for Session {
    type V = SessionView;

    open spec fn view(&self) -> SessionView {
        SessionView {
            name: self.name@,
            running: self.running,
            created: self.created@,
            activity: self.activity@,
            activity_ts: self.activity_ts,
            dir: self.dir@,
        }
    }
}

/// What each session of a list says.
pub open spec fn session_views(list: Seq<Session>) -> Seq<SessionView> {
    list.map_values(|s: Session| s@)
}

// --- The sidebar's socket ---

/// The socket of the sidebar and the identifiers of the place in it that a
/// session reports to.
pub struct CmuxEnv {
    pub local_sock: String,
    pub remote_sock: String,
    pub workspace_id: String,
    pub tab_id: String,
    pub panel_id: String,
    pub surface_id: String,
}

/// What a [`CmuxEnv`] says.
#[verifier::ext_equal]
pub struct CmuxView {
    pub local_sock: Seq<char>,
    pub remote_sock: Seq<char>,
    pub workspace_id: Seq<char>,
    pub tab_id: Seq<char>,
    pub panel_id: Seq<char>,
    pub surface_id: Seq<char>,
}

impl View for CmuxEnv {
    type V = CmuxView;

    open spec fn view(&self) -> CmuxView {
        CmuxView {
            local_sock: self.local_sock@,
            remote_sock: self.remote_sock@,
            workspace_id: self.workspace_id@,
            tab_id: self.tab_id@,
            panel_id: self.panel_id@,
            surface_id: self.surface_id@,
        }
    }
}

/// Where the socket stands by default, below the home directory; no path where
/// there is no home.
pub open spec fn default_socket(home: Option<Seq<char>>) -> Seq<char> {
    match home {
        Some(home) => home + "/Library/Application Support/cmux/cmux.sock"@,
        None => Seq::empty(),
    }
}

/// Where the socket stands by default.
pub fn default_socket_path(home: Option<&str>) -> (r: String)
    ensures
        r@ == default_socket(
            match home {
                Some(home) => Some(home@),
                None => None,
            },
        ),
{
    match home {
        Some(home) => {
            let mut path = home.to_string();
            path.append("/Library/Application Support/cmux/cmux.sock");
            path
        },
        None => String::new(),
    }
}

/// A path that may lead to a socket, and whether it does.
pub struct Candidate {
    pub path: String,
    pub is_socket: bool,
}

/// The identifiers that the environment gives; empty where it gives none.
pub struct CmuxIds {
    pub workspace_id: String,
    pub tab_id: String,
    pub panel_id: String,
    pub surface_id: String,
}

/// The socket to forward: the one that the environment names where it is one,
/// else the default one where it is one.
pub open spec fn chosen_socket(named: Option<Candidate>, fallback: Candidate) -> Option<Seq<char>> {
    if named matches Some(c) && c.is_socket {
        Some(named->0.path@)
    } else if fallback.is_socket {
        Some(fallback.path@)
    } else {
        None
    }
}

impl CmuxView {
    /// The command that exports the variables of the sidebar.
    pub open spec fn export_prefix(self) -> Seq<char> {
        "export CMUX_SOCKET_PATH="@ + self.remote_sock + " CMUX_WORKSPACE_ID="@
            + self.workspace_id + " CMUX_TAB_ID="@ + self.tab_id + " CMUX_PANEL_ID="@
            + self.panel_id + " CMUX_SURFACE_ID="@ + self.surface_id + ";"@
    }

    /// The commands that make tmux hand the socket to new panes.
    pub open spec fn tmux_env(self, rtmux: Seq<char>) -> Seq<char> {
        rtmux + " set-environment -g CMUX_SOCKET_PATH '"@ + self.remote_sock + "' 2>/dev/null;"@
            + rtmux
            + " set-option -g update-environment 'CMUX_SOCKET_PATH CMUX_WORKSPACE_ID CMUX_TAB_ID CMUX_PANEL_ID CMUX_SURFACE_ID' 2>/dev/null;"@
    }

    /// The command that sets the variables of one session.
    pub open spec fn session_env(self, name: Seq<char>) -> Seq<char> {
        "~/.cmux-kiro/set-env.sh "@ + quote::quoted(name) + " CMUX_SOCKET_PATH '"@
            + self.remote_sock + "' CMUX_WORKSPACE_ID '"@ + self.workspace_id + "' CMUX_TAB_ID '"@
            + self.tab_id + "' CMUX_PANEL_ID '"@ + self.panel_id + "' CMUX_SURFACE_ID '"@
            + self.surface_id + "';"@
    }
}

impl CmuxEnv {
    /// The sidebar to report to, where there is a socket to forward.
    pub fn detect(named: Option<Candidate>, fallback: Candidate, ids: CmuxIds) -> (r: Option<
        CmuxEnv,
    >)
        ensures
            match r {
                Some(env) => chosen_socket(named, fallback) == Some(env@.local_sock) && env@ == (
                CmuxView {
                    local_sock: env@.local_sock,
                    remote_sock: "/tmp/cmux.sock"@,
                    workspace_id: ids.workspace_id@,
                    tab_id: ids.tab_id@,
                    panel_id: ids.panel_id@,
                    surface_id: ids.surface_id@,
                }),
                None => chosen_socket(named, fallback) is None,
            },
    {
        let sock = match named {
            Some(c) if c.is_socket => c.path,
            _ => {
                if fallback.is_socket {
                    fallback.path
                } else {
                    return None;
                }
            },
        };
        Some(
            CmuxEnv {
                local_sock: sock,
                remote_sock: "/tmp/cmux.sock".to_string(),
                workspace_id: ids.workspace_id,
                tab_id: ids.tab_id,
                panel_id: ids.panel_id,
                surface_id: ids.surface_id,
            },
        )
    }

    /// The command that exports the variables of the sidebar.
    pub fn export_prefix(&self) -> (r: String)
        ensures
            r@ == self@.export_prefix(),
    {
        let mut s = "export CMUX_SOCKET_PATH=".to_string();
        s.append(self.remote_sock.as_str());
        s.append(" CMUX_WORKSPACE_ID=");
        s.append(self.workspace_id.as_str());
        s.append(" CMUX_TAB_ID=");
        s.append(self.tab_id.as_str());
        s.append(" CMUX_PANEL_ID=");
        s.append(self.panel_id.as_str());
        s.append(" CMUX_SURFACE_ID=");
        s.append(self.surface_id.as_str());
        s.append(";");
        s
    }

    /// The commands that make tmux hand the socket to new panes.
    pub fn tmux_env(&self, rtmux: &str) -> (r: String)
        ensures
            r@ == self@.tmux_env(rtmux@),
    {
        let mut s = rtmux.to_string();
        s.append(" set-environment -g CMUX_SOCKET_PATH '");
        s.append(self.remote_sock.as_str());
        s.append("' 2>/dev/null;");
        s.append(rtmux);
        s.append(
            " set-option -g update-environment 'CMUX_SOCKET_PATH CMUX_WORKSPACE_ID CMUX_TAB_ID CMUX_PANEL_ID CMUX_SURFACE_ID' 2>/dev/null;",
        );
        s
    }

    /// The command that sets the variables of one session.
    pub fn session_env(&self, name: &str) -> (r: String)
        ensures
            r@ == self@.session_env(name@),
    {
        let mut s = "~/.cmux-kiro/set-env.sh ".to_string();
        s.append(quote::sh_quote(name).as_str());
        s.append(" CMUX_SOCKET_PATH '");
        s.append(self.remote_sock.as_str());
        s.append("' CMUX_WORKSPACE_ID '");
        s.append(self.workspace_id.as_str());
        s.append("' CMUX_TAB_ID '");
        s.append(self.tab_id.as_str());
        s.append("' CMUX_PANEL_ID '");
        s.append(self.panel_id.as_str());
        s.append("' CMUX_SURFACE_ID '");
        s.append(self.surface_id.as_str());
        s.append("';");
        s
    }
}

// --- What to launch ---

/// A session to hand the terminal to.
pub enum SessionAction {
    Attach { name: String },
    New { name: String },
    NewInDir { name: String, dir: String },
}

/// What a [`SessionAction`] says.
pub enum SessionActionView {
    Attach { name: Seq<char> },
    New { name: Seq<char> },
    NewInDir { name: Seq<char>, dir: Seq<char> },
}

impl View for SessionAction {
    type V = SessionActionView;

    open spec fn view(&self) -> SessionActionView {
        match self {
            SessionAction::Attach { name } => SessionActionView::Attach { name: name@ },
            SessionAction::New { name } => SessionActionView::New { name: name@ },
            SessionAction::NewInDir { name, dir } => SessionActionView::NewInDir {
                name: name@,
                dir: dir@,
            },
        }
    }
}

impl SessionActionView {
    /// The name of the session.
    pub open spec fn session_name(self) -> Seq<char> {
        match self {
            SessionActionView::Attach { name } => name,
            SessionActionView::New { name } => name,
            SessionActionView::NewInDir { name, .. } => name,
        }
    }

    /// The tmux command that attaches to the session or creates it, in its
    /// directory where there is one.
    pub open spec fn tmux_cmd(self, rtmux: Seq<char>) -> Seq<char> {
        match self {
            SessionActionView::Attach { name } => rtmux + " attach -t "@ + quote::quoted(name),
            SessionActionView::New { name } => rtmux + " new -s "@ + quote::quoted(name),
            SessionActionView::NewInDir { name, dir } => rtmux + " new -s "@ + quote::quoted(name)
                + " "@ + quote::quoted(start_in(dir)),
        }
    }
}

/// The command that starts the login shell in a directory.
pub open spec fn start_in(dir: Seq<char>) -> Seq<char> {
    "cd "@ + quote::quoted(dir) + " && exec $SHELL"@
}

impl SessionAction {
    /// The name of the session.
    pub fn session_name(&self) -> (r: &str)
        ensures
            r@ == self@.session_name(),
    {
        match self {
            SessionAction::Attach { name } => name.as_str(),
            SessionAction::New { name } => name.as_str(),
            SessionAction::NewInDir { name, .. } => name.as_str(),
        }
    }

    /// The tmux command that attaches to the session or creates it.
    pub fn tmux_cmd(&self, rtmux: &str) -> (r: String)
        ensures
            r@ == self@.tmux_cmd(rtmux@),
    {
        let mut s = rtmux.to_string();
        match self {
            SessionAction::Attach { name } => {
                s.append(" attach -t ");
                s.append(quote::sh_quote(name.as_str()).as_str());
            },
            SessionAction::New { name } => {
                s.append(" new -s ");
                s.append(quote::sh_quote(name.as_str()).as_str());
            },
            SessionAction::NewInDir { name, dir } => {
                let mut inner = "cd ".to_string();
                inner.append(quote::sh_quote(dir.as_str()).as_str());
                inner.append(" && exec $SHELL");
                s.append(" new -s ");
                s.append(quote::sh_quote(name.as_str()).as_str());
                s.append(" ");
                s.append(quote::sh_quote(inner.as_str()).as_str());
            },
        }
        s
    }
}

// --- Laws ---

/// Whether a command attaches to the session that the shell reads as `name`.
pub open spec fn attaches_to(command: Seq<char>, rtmux: Seq<char>, name: Seq<char>) -> bool {
    exists|word: Seq<char>| #[trigger]
        quote::stands_for(word, name) && command == rtmux + " attach -t "@ + word
}

/// Whether a command creates the session that the shell reads as `name`.
pub open spec fn creates(command: Seq<char>, rtmux: Seq<char>, name: Seq<char>) -> bool {
    exists|word: Seq<char>| #[trigger]
        quote::stands_for(word, name) && command == rtmux + " new -s "@ + word
}

/// Whether a text is the command that starts the login shell in what the shell
/// reads as `dir`.
pub open spec fn starts_in(text: Seq<char>, dir: Seq<char>) -> bool {
    exists|word: Seq<char>| #[trigger]
        quote::stands_for(word, dir) && text == "cd "@ + word + " && exec $SHELL"@
}

/// Whether a command creates the session that the shell reads as `name`, and
/// hands it, as one more word, the command that starts in `dir`.
pub open spec fn creates_in(
    command: Seq<char>,
    rtmux: Seq<char>,
    name: Seq<char>,
    dir: Seq<char>,
) -> bool {
    exists|word: Seq<char>, last: Seq<char>, inner: Seq<char>|
        #![trigger quote::stands_for(word, name), quote::stands_for(last, inner)]
        quote::stands_for(word, name) && quote::stands_for(last, inner) && starts_in(inner, dir)
            && command == rtmux + " new -s "@ + word + " "@ + last
}

/// Whether a command does what the action asks for: it attaches to the session,
/// creates it, or creates it in its directory.
pub open spec fn carries_out(
    command: Seq<char>,
    rtmux: Seq<char>,
    action: SessionActionView,
) -> bool {
    match action {
        SessionActionView::Attach { name } => attaches_to(command, rtmux, name),
        SessionActionView::New { name } => creates(command, rtmux, name),
        SessionActionView::NewInDir { name, dir } => creates_in(command, rtmux, name, dir),
    }
}

/// The tmux command of an action carries it out: whatever the name and the
/// directory hold, the shell reads exactly them.
pub proof fn tmux_carries_the_action_out(action: SessionActionView, rtmux: Seq<char>)
    ensures
        carries_out(action.tmux_cmd(rtmux), rtmux, action),
{
    match action {
        SessionActionView::Attach { name } => {
            quote::quoting_is_exact(name);
            assert(quote::stands_for(quote::quoted(name), name));
        },
        SessionActionView::New { name } => {
            quote::quoting_is_exact(name);
            assert(quote::stands_for(quote::quoted(name), name));
        },
        SessionActionView::NewInDir { name, dir } => {
            quote::quoting_is_exact(name);
            quote::quoting_is_exact(dir);
            quote::quoting_is_exact(start_in(dir));
            assert(quote::stands_for(quote::quoted(dir), dir));
            assert(starts_in(start_in(dir), dir));
            assert(quote::stands_for(quote::quoted(name), name));
            assert(quote::stands_for(quote::quoted(start_in(dir)), start_in(dir)));
        },
    }
}

/// Every action is about the session that it names.
pub proof fn every_action_names_its_session(name: Seq<char>, dir: Seq<char>)
    ensures
        (SessionActionView::Attach { name }).session_name() == name,
        (SessionActionView::New { name }).session_name() == name,
        (SessionActionView::NewInDir { name, dir }).session_name() == name,
{
}

/// Whether a command gives a value behind a label, and ends it with a blank, a
/// semicolon or a quote.
pub open spec fn tells(command: Seq<char>, label: Seq<char>, value: Seq<char>) -> bool {
    exists|before: Seq<char>, after: Seq<char>| #[trigger]
        tells_between(command, before, label, value, after)
}

/// Whether a command gives a value behind a label, between two given parts.
pub open spec fn tells_between(
    command: Seq<char>,
    before: Seq<char>,
    label: Seq<char>,
    value: Seq<char>,
    after: Seq<char>,
) -> bool {
    command == before + label + value + after && after.len() > 0 && (after[0] == ' ' || after[0]
        == ';' || after[0] == '\'')
}

/// What follows a value in a chain of texts.
proof fn lemma_tells(
    before: Seq<char>,
    label: Seq<char>,
    value: Seq<char>,
    next: Seq<char>,
    rest: Seq<char>,
)
    requires
        next.len() > 0,
        next[0] == ' ' || next[0] == ';' || next[0] == '\'',
    ensures
        tells(before + label + value + next + rest, label, value),
        tells(before + label + value + next, label, value),
{
    let whole = before + label + value + next + rest;
    assert(whole =~= before + label + value + (next + rest));
    assert(tells_between(whole, before, label, value, next + rest));
    assert(tells_between(before + label + value + next, before, label, value, next));
}

/// A chain of texts goes on.
proof fn lemma_chain(a: Seq<char>, b: Seq<char>, c: Seq<char>)
    ensures
        a + (b + c) == a + b + c,
{
    assert(a + (b + c) =~= a + b + c);
}

/// The sidebar's variables are exported with the values they have, before
/// anything else is done.
pub proof fn the_sidebar_is_exported(c: CmuxView)
    ensures
        tells(c.export_prefix(), "export CMUX_SOCKET_PATH="@, c.remote_sock),
        tells(c.export_prefix(), " CMUX_WORKSPACE_ID="@, c.workspace_id),
        tells(c.export_prefix(), " CMUX_TAB_ID="@, c.tab_id),
        tells(c.export_prefix(), " CMUX_PANEL_ID="@, c.panel_id),
        tells(c.export_prefix(), " CMUX_SURFACE_ID="@, c.surface_id),
{
    let (l0, l1, l2, l3, l4, end) = (
        "export CMUX_SOCKET_PATH="@,
        " CMUX_WORKSPACE_ID="@,
        " CMUX_TAB_ID="@,
        " CMUX_PANEL_ID="@,
        " CMUX_SURFACE_ID="@,
        ";"@,
    );
    assert(l1.len() > 0 && l1[0] == ' ') by {
        reveal_strlit(" CMUX_WORKSPACE_ID=");
    }
    assert(l2.len() > 0 && l2[0] == ' ') by {
        reveal_strlit(" CMUX_TAB_ID=");
    }
    assert(l3.len() > 0 && l3[0] == ' ') by {
        reveal_strlit(" CMUX_PANEL_ID=");
    }
    assert(l4.len() > 0 && l4[0] == ' ') by {
        reveal_strlit(" CMUX_SURFACE_ID=");
    }
    assert(end.len() > 0 && end[0] == ';') by {
        reveal_strlit(";");
    }
    lemma_told(
        c.export_prefix(),
        Seq::empty(),
        l0,
        c.remote_sock,
        l1,
        c.workspace_id,
        l2,
        c.tab_id,
        l3,
        c.panel_id,
        l4,
        c.surface_id,
        end,
    );
}

/// The helper is called for the session that the shell reads as `name`, with the
/// sidebar's variables and the values they have.
pub proof fn the_session_is_told_of_the_sidebar(c: CmuxView, name: Seq<char>)
    ensures
        tells(c.session_env(name), " CMUX_SOCKET_PATH '"@, c.remote_sock),
        tells(c.session_env(name), "' CMUX_WORKSPACE_ID '"@, c.workspace_id),
        tells(c.session_env(name), "' CMUX_TAB_ID '"@, c.tab_id),
        tells(c.session_env(name), "' CMUX_PANEL_ID '"@, c.panel_id),
        tells(c.session_env(name), "' CMUX_SURFACE_ID '"@, c.surface_id),
        exists|word: Seq<char>| #[trigger]
            quote::stands_for(word, name) && tells(
                c.session_env(name),
                "~/.cmux-kiro/set-env.sh "@,
                word,
            ),
{
    let (l0, l1, l2, l3, l4, end) = (
        " CMUX_SOCKET_PATH '"@,
        "' CMUX_WORKSPACE_ID '"@,
        "' CMUX_TAB_ID '"@,
        "' CMUX_PANEL_ID '"@,
        "' CMUX_SURFACE_ID '"@,
        "';"@,
    );
    assert(l0.len() > 0 && l0[0] == ' ') by {
        reveal_strlit(" CMUX_SOCKET_PATH '");
    }
    assert(l1.len() > 0 && l1[0] == '\'') by {
        reveal_strlit("' CMUX_WORKSPACE_ID '");
    }
    assert(l2.len() > 0 && l2[0] == '\'') by {
        reveal_strlit("' CMUX_TAB_ID '");
    }
    assert(l3.len() > 0 && l3[0] == '\'') by {
        reveal_strlit("' CMUX_PANEL_ID '");
    }
    assert(l4.len() > 0 && l4[0] == '\'') by {
        reveal_strlit("' CMUX_SURFACE_ID '");
    }
    assert(end.len() > 0 && end[0] == '\'') by {
        reveal_strlit("';");
    }
    quote::quoting_is_exact(name);
    let word = quote::quoted(name);
    let call = "~/.cmux-kiro/set-env.sh "@;
    let start = call + word;
    assert(quote::stands_for(word, name));
    let rest = c.remote_sock + l1 + c.workspace_id + l2 + c.tab_id + l3 + c.panel_id + l4
        + c.surface_id + end;
    assert(c.session_env(name) =~= Seq::<char>::empty() + call + word + l0 + rest);
    lemma_tells(Seq::empty(), call, word, l0, rest);
    lemma_told(
        c.session_env(name),
        start,
        l0,
        c.remote_sock,
        l1,
        c.workspace_id,
        l2,
        c.tab_id,
        l3,
        c.panel_id,
        l4,
        c.surface_id,
        end,
    );
}

/// A chain of labels and values tells each of the values behind its label.
proof fn lemma_told(
    command: Seq<char>,
    start: Seq<char>,
    l0: Seq<char>,
    v0: Seq<char>,
    l1: Seq<char>,
    v1: Seq<char>,
    l2: Seq<char>,
    v2: Seq<char>,
    l3: Seq<char>,
    v3: Seq<char>,
    l4: Seq<char>,
    v4: Seq<char>,
    end: Seq<char>,
)
    requires
        command == start + l0 + v0 + l1 + v1 + l2 + v2 + l3 + v3 + l4 + v4 + end || (start.len()
            == 0 && command == l0 + v0 + l1 + v1 + l2 + v2 + l3 + v3 + l4 + v4 + end),
        l1.len() > 0 && (l1[0] == ' ' || l1[0] == ';' || l1[0] == '\''),
        l2.len() > 0 && (l2[0] == ' ' || l2[0] == ';' || l2[0] == '\''),
        l3.len() > 0 && (l3[0] == ' ' || l3[0] == ';' || l3[0] == '\''),
        l4.len() > 0 && (l4[0] == ' ' || l4[0] == ';' || l4[0] == '\''),
        end.len() > 0 && (end[0] == ' ' || end[0] == ';' || end[0] == '\''),
    ensures
        tells(command, l0, v0),
        tells(command, l1, v1),
        tells(command, l2, v2),
        tells(command, l3, v3),
        tells(command, l4, v4),
{
    if start.len() == 0 {
        assert(start + l0 =~= l0);
    }
    let p1 = start + l0 + v0;
    let p2 = p1 + l1 + v1;
    let p3 = p2 + l2 + v2;
    let p4 = p3 + l3 + v3;
    assert(command == p4 + l4 + v4 + end);
    lemma_tells(p4, l4, v4, end, Seq::empty());
    let r3 = v4 + end;
    lemma_chain(p4 + l4, v4, end);
    lemma_tells(p3, l3, v3, l4, r3);
    let r2 = v3 + l4 + r3;
    lemma_chain(p3 + l3, v3, l4);
    lemma_chain(p3 + l3, v3 + l4, r3);
    lemma_tells(p2, l2, v2, l3, r2);
    let r1 = v2 + l3 + r2;
    lemma_chain(p2 + l2, v2, l3);
    lemma_chain(p2 + l2, v2 + l3, r2);
    lemma_tells(p1, l1, v1, l2, r1);
    let r0 = v1 + l2 + r1;
    lemma_chain(p1 + l1, v1, l2);
    lemma_chain(p1 + l1, v1 + l2, r1);
    lemma_tells(start, l0, v0, l1, r0);
}

/// The socket that the environment names goes before the default one; a path
/// that leads to no socket is never forwarded, and where one does there is one to
/// forward.
pub proof fn the_named_socket_goes_first(named: Option<Candidate>, fallback: Candidate)
    ensures
        named matches Some(c) ==> c.is_socket ==> chosen_socket(named, fallback) == Some(c.path@),
        (named matches Some(c) ==> !c.is_socket) && fallback.is_socket ==> chosen_socket(
            named,
            fallback,
        ) == Some(fallback.path@),
        (named matches Some(c) ==> !c.is_socket) && !fallback.is_socket ==> chosen_socket(
            named,
            fallback,
        ) is None,
{
}

/// tmux is told of the socket that the sidebar has on the host.
pub proof fn tmux_is_told_of_the_socket(c: CmuxView, rtmux: Seq<char>)
    ensures
        tells(c.tmux_env(rtmux), " set-environment -g CMUX_SOCKET_PATH '"@, c.remote_sock),
        rtmux.is_prefix_of(c.tmux_env(rtmux)),
{
    let label = " set-environment -g CMUX_SOCKET_PATH '"@;
    let next = "' 2>/dev/null;"@;
    assert(next.len() > 0 && next[0] == '\'') by {
        reveal_strlit("' 2>/dev/null;");
    }
    let last = " set-option -g update-environment 'CMUX_SOCKET_PATH CMUX_WORKSPACE_ID CMUX_TAB_ID CMUX_PANEL_ID CMUX_SURFACE_ID' 2>/dev/null;"@;
    lemma_chain(rtmux + label + c.remote_sock + next, rtmux, last);
    lemma_tells(rtmux, label, c.remote_sock, next, rtmux + last);
}

/// The socket stands below the home directory, and nowhere where there is none.
pub proof fn the_socket_stands_below_the_home(home: Seq<char>)
    ensures
        home.is_prefix_of(default_socket(Some(home))),
        default_socket(Some(home)).skip(home.len() as int)
            == "/Library/Application Support/cmux/cmux.sock"@,
        default_socket(None).len() == 0,
{
    assert(default_socket(Some(home)).skip(home.len() as int)
        =~= "/Library/Application Support/cmux/cmux.sock"@);
}

}
