//! The remote host: the commands that list, rename and end its sessions, and
//! the programs that hand the terminal over to one of them.
use vstd::prelude::*;
use vstd::string::*;
use crate::probe;
use crate::quote;
use crate::ssh;
use crate::ssh::{CmuxEnv, CmuxView, Session, SessionAction, SessionActionView};
use crate::text;

verus! {

/// How tmux is called on the remote host.
pub const RTMUX: &'static str = "PATH=/usr/local/bin:/apollo/env/envImprovement/bin:$PATH tmux -u";

/// The script that installs the helper which sets the variables of one
/// session. A script takes the session's name as an argument, so that a slash
/// in it needs no further quoting.
pub const HELPER_SCRIPT: &'static str = r#"mkdir -p ~/.cmux-kiro && cat > ~/.cmux-kiro/set-env.sh << 'CMUXEOF'
#!/bin/bash
sess="$1"; shift
export PATH="/usr/local/bin:/apollo/env/envImprovement/bin:$PATH"
while [[ $# -ge 2 ]]; do
    tmux set-environment -t "$sess" "$1" "$2"
    shift 2
done
CMUXEOF
chmod +x ~/.cmux-kiro/set-env.sh"#;

/// A remote host and how to reach it.
pub struct Remote {
    pub host: String,
    pub rtmux: String,
    pub ssh_opts: Vec<String>,
    pub use_mosh: bool,
    pub cmux: Option<CmuxEnv>,
}

/// What a [`Remote`] says.
#[verifier::ext_equal]
pub struct RemoteView {
    pub host: Seq<char>,
    pub rtmux: Seq<char>,
    pub ssh_opts: Seq<Seq<char>>,
    pub use_mosh: bool,
    pub cmux: Option<CmuxView>,
}

impl View for Remote {
    type V = RemoteView;

    open spec fn view(&self) -> RemoteView {
        RemoteView {
            host: self.host@,
            rtmux: self.rtmux@,
            ssh_opts: text::texts(self.ssh_opts@),
            use_mosh: self.use_mosh,
            cmux: match self.cmux {
                Some(c) => Some(c@),
                None => None,
            },
        }
    }
}

/// The options that every ssh gets: it notices a dead link after fifteen
/// seconds, and it reports errors only.
pub open spec fn default_ssh_opts() -> Seq<Seq<char>> {
    seq![
        "-o"@,
        "ServerAliveInterval=5"@,
        "-o"@,
        "ServerAliveCountMax=3"@,
        "-o"@,
        "LogLevel=ERROR"@,
    ]
}

impl RemoteView {
    /// The host up to the first dot.
    pub open spec fn short_host(self) -> Seq<char> {
        self.host.take(text::find(self.host, '.'))
    }

    /// The arguments of an ssh that runs `command` without a terminal.
    pub open spec fn capture_args(self, command: Seq<char>) -> Seq<Seq<char>> {
        self.ssh_opts + seq![self.host, command]
    }

    /// The options that forward the socket of the sidebar.
    pub open spec fn cmux_ssh_extra(self) -> Seq<Seq<char>> {
        match self.cmux {
            Some(c) => seq![
                "-o"@,
                "StreamLocalBindUnlink=yes"@,
                "-o"@,
                "ControlPath=none"@,
                "-R"@,
                c.remote_sock + ":"@ + c.local_sock,
            ],
            None => Seq::empty(),
        }
    }

    /// The arguments of an ssh that runs `command` in the terminal.
    pub open spec fn tty_args(self, command: Seq<char>) -> Seq<Seq<char>> {
        self.ssh_opts + self.cmux_ssh_extra() + seq!["-t"@, self.host, command]
    }

    /// The arguments of a mosh that runs `command`.
    pub open spec fn mosh_args(self, command: Seq<char>) -> Seq<Seq<char>> {
        seq![self.host, "--"@, "bash"@, "-lc"@, command]
    }

    /// The command that lists the running sessions: their names with the time
    /// of creation and of the last activity, a separator, and their names with
    /// their directories.
    pub open spec fn fetch_command(self) -> Seq<char> {
        "rm -f /tmp/cmux.sock 2>/dev/null\n"@ + self.rtmux
            + " ls -F '#{session_name}|#{session_created}|#{session_activity}' 2>/dev/null\necho '==='\n"@
            + self.rtmux + " ls -F '#{session_name}|#{pane_current_path}' 2>/dev/null"@
    }

    /// The command that ends a session.
    pub open spec fn kill_command(self, name: Seq<char>) -> Seq<char> {
        self.rtmux + " kill-session -t "@ + quote::quoted(name)
    }

    /// The commands that end several sessions, one after the other.
    pub open spec fn kill_commands(self, names: Seq<Seq<char>>) -> Seq<char>
        decreases names.len(),
    {
        if names.len() == 0 {
            Seq::empty()
        } else {
            self.kill_commands(names.drop_last()) + self.kill_command(names.last())
                + " 2>/dev/null;"@
        }
    }

    /// The command that renames a session.
    pub open spec fn rename_command(self, from: Seq<char>, to: Seq<char>) -> Seq<char> {
        self.rtmux + " rename-session -t "@ + quote::quoted(from) + " "@ + quote::quoted(to)
    }

    /// The whole remote command for an action: the variables of the sidebar
    /// where there is one, those of the session where it attaches, and tmux.
    pub open spec fn remote_command(self, action: SessionActionView) -> Seq<char> {
        let (prefix, tmux_env, per_session) = match self.cmux {
            Some(c) => (
                c.export_prefix(),
                c.tmux_env(self.rtmux),
                match action {
                    SessionActionView::Attach { name } => c.session_env(name),
                    _ => Seq::empty(),
                },
            ),
            None => (Seq::empty(), Seq::empty(), Seq::empty()),
        };
        prefix + " "@ + tmux_env + " "@ + per_session + " "@ + action.tmux_cmd(self.rtmux)
    }
}

/// The list of one string for each text.
fn push_text(list: &mut Vec<String>, s: &str)
    ensures
        text::texts(final(list)@) == text::texts(old(list)@).push(s@),
{
    let ghost before = text::texts(list@);
    list.push(s.to_string());
    assert(text::texts(list@) =~= before.push(s@));
}

impl Remote {
    /// The remote host `host`, reached with mosh or ssh, with the sidebar
    /// `cmux` where there is one.
    pub fn new(host: String, use_mosh: bool, cmux: Option<CmuxEnv>) -> (r: Remote)
        ensures
            r@ == (RemoteView {
                host: host@,
                rtmux: RTMUX@,
                ssh_opts: default_ssh_opts(),
                use_mosh,
                cmux: match cmux {
                    Some(c) => Some(c@),
                    None => None,
                },
            }),
    {
        let mut ssh_opts: Vec<String> = Vec::new();
        push_text(&mut ssh_opts, "-o");
        push_text(&mut ssh_opts, "ServerAliveInterval=5");
        push_text(&mut ssh_opts, "-o");
        push_text(&mut ssh_opts, "ServerAliveCountMax=3");
        push_text(&mut ssh_opts, "-o");
        push_text(&mut ssh_opts, "LogLevel=ERROR");
        assert(text::texts(ssh_opts@) =~= default_ssh_opts());
        Remote { host, rtmux: RTMUX.to_string(), ssh_opts, use_mosh, cmux }
    }

    /// The host up to the first dot.
    pub fn short_host(&self) -> (r: &str)
        ensures
            r@ == self@.short_host(),
    {
        let list = text::char_list(self.host.as_str());
        let at = text::find_from(&list, '.', 0);
        assert(list@.skip(0) =~= list@);
        let short = self.host.as_str().substring_char(0, at);
        assert(short@ =~= self.host@.take(at as int));
        short
    }

    /// The arguments of an ssh that runs `remote_cmd` without a terminal and
    /// whose output is captured.
    pub fn ssh_capture(&self, remote_cmd: &str) -> (r: Vec<String>)
        ensures
            text::texts(r@) == self@.capture_args(remote_cmd@),
    {
        let mut args = crate::names::copy_names(&self.ssh_opts);
        push_text(&mut args, self.host.as_str());
        push_text(&mut args, remote_cmd);
        assert(text::texts(args@) =~= self@.capture_args(remote_cmd@));
        args
    }

    /// The command that installs the helper, where there is a sidebar.
    pub fn deploy_helper(&self) -> (r: Option<String>)
        ensures
            match r {
                Some(script) => self@.cmux is Some && script@ == HELPER_SCRIPT@,
                None => self@.cmux is None,
            },
    {
        if self.cmux.is_none() {
            return None;
        }
        Some(HELPER_SCRIPT.to_string())
    }

    /// The command that lists the running sessions.
    pub fn fetch_command(&self) -> (r: String)
        ensures
            r@ == self@.fetch_command(),
    {
        let mut s = "rm -f /tmp/cmux.sock 2>/dev/null\n".to_string();
        s.append(self.rtmux.as_str());
        s.append(
            " ls -F '#{session_name}|#{session_created}|#{session_activity}' 2>/dev/null\necho '==='\n",
        );
        s.append(self.rtmux.as_str());
        s.append(" ls -F '#{session_name}|#{pane_current_path}' 2>/dev/null");
        s
    }

    /// All sessions: what the host answered to [`Remote::fetch_command`],
    /// nothing where the command failed, merged with those that the
    /// configuration names.
    pub fn fetch_sessions(
        &self,
        answer: Option<&str>,
        config_entries: &[(String, String)],
    ) -> (r: Vec<Session>)
        ensures
            probe::is_merge_of(
                ssh::session_views(r@),
                match answer {
                    Some(raw) => raw@,
                    None => Seq::empty(),
                },
                probe::pair_texts(config_entries@),
            ),
    {
        match answer {
            Some(raw) => probe::parse_and_merge(raw, config_entries),
            None => {
                let nothing = String::new();
                probe::parse_and_merge(nothing.as_str(), config_entries)
            },
        }
    }

    /// The command that ends a session.
    pub fn kill_session(&self, name: &str) -> (r: String)
        ensures
            r@ == self@.kill_command(name@),
    {
        let mut s = self.rtmux.clone();
        s.append(" kill-session -t ");
        s.append(quote::sh_quote(name).as_str());
        s
    }

    /// The command that ends several sessions at once, where there are any.
    pub fn kill_sessions(&self, names: &[String]) -> (r: Option<String>)
        ensures
            match r {
                Some(s) => names@.len() > 0 && s@ == self@.kill_commands(text::texts(names@)),
                None => names@.len() == 0,
            },
    {
        if names.len() == 0 {
            return None;
        }
        let ghost all = text::texts(names@);
        let mut s = String::new();
        let mut i: usize = 0;
        assert(s@ =~= self@.kill_commands(all.take(0)));
        while i < names.len()
            invariant
                i <= names@.len(),
                all == text::texts(names@),
                s@ == self@.kill_commands(all.take(i as int)),
            decreases names.len() - i,
        {
            assert(all.take(i + 1).drop_last() =~= all.take(i as int));
            assert(all.take(i + 1).last() == names@[i as int]@);
            let ghost before = s@;
            s.append(self.kill_session(names[i].as_str()).as_str());
            s.append(" 2>/dev/null;");
            i += 1;
        }
        assert(all.take(i as int) =~= all);
        Some(s)
    }

    /// The command that renames a session.
    pub fn rename_session(&self, from: &str, to: &str) -> (r: String)
        ensures
            r@ == self@.rename_command(from@, to@),
    {
        let mut s = self.rtmux.clone();
        s.append(" rename-session -t ");
        s.append(quote::sh_quote(from).as_str());
        s.append(" ");
        s.append(quote::sh_quote(to).as_str());
        s
    }

    /// The options that forward the socket of the sidebar.
    pub fn cmux_ssh_extra(&self) -> (r: Vec<String>)
        ensures
            text::texts(r@) == self@.cmux_ssh_extra(),
    {
        let mut args: Vec<String> = Vec::new();
        if let Some(c) = &self.cmux {
            let mut forward = c.remote_sock.clone();
            forward.append(":");
            forward.append(c.local_sock.as_str());
            push_text(&mut args, "-o");
            push_text(&mut args, "StreamLocalBindUnlink=yes");
            push_text(&mut args, "-o");
            push_text(&mut args, "ControlPath=none");
            push_text(&mut args, "-R");
            push_text(&mut args, forward.as_str());
        }
        assert(text::texts(args@) =~= self@.cmux_ssh_extra());
        args
    }

    /// The whole remote command for an action.
    pub fn build_remote_cmd(&self, action: &SessionAction) -> (r: String)
        ensures
            r@ == self@.remote_command(action@),
    {
        let mut prefix = String::new();
        let mut tmux_env = String::new();
        let mut per_session = String::new();
        if let Some(c) = &self.cmux {
            prefix = c.export_prefix();
            tmux_env = c.tmux_env(self.rtmux.as_str());
            if let SessionAction::Attach { name } = action {
                per_session = c.session_env(name.as_str());
            }
        }
        let mut s = prefix;
        s.append(" ");
        s.append(tmux_env.as_str());
        s.append(" ");
        s.append(per_session.as_str());
        s.append(" ");
        s.append(action.tmux_cmd(self.rtmux.as_str()).as_str());
        s
    }

    /// The arguments of an ssh that runs `remote_cmd` in the terminal.
    pub fn ssh_tty(&self, remote_cmd: &str) -> (r: Vec<String>)
        ensures
            text::texts(r@) == self@.tty_args(remote_cmd@),
    {
        let mut args = crate::names::copy_names(&self.ssh_opts);
        let mut extra = self.cmux_ssh_extra();
        let ghost opts = text::texts(args@);
        let ghost more = text::texts(extra@);
        args.append(&mut extra);
        assert(text::texts(args@) =~= opts + more);
        push_text(&mut args, "-t");
        push_text(&mut args, self.host.as_str());
        push_text(&mut args, remote_cmd);
        assert(text::texts(args@) =~= self@.tty_args(remote_cmd@));
        args
    }
}

// --- Handing the terminal over ---

/// A program that takes the terminal over, with its arguments.
pub enum Launch {
    Ssh { args: Vec<String> },
    Mosh { args: Vec<String> },
}

/// What a [`Launch`] says.
pub enum LaunchView {
    Ssh { args: Seq<Seq<char>> },
    Mosh { args: Seq<Seq<char>> },
}

impl View for Launch {
    type V = LaunchView;

    open spec fn view(&self) -> LaunchView {
        match self {
            Launch::Ssh { args } => LaunchView::Ssh { args: text::texts(args@) },
            Launch::Mosh { args } => LaunchView::Mosh { args: text::texts(args@) },
        }
    }
}

/// How many seconds pass before a lost link is tried again.
pub const RECONNECT_SECONDS: u64 = 3;

impl RemoteView {
    /// The program that starts an action.
    pub open spec fn first_launch(self, action: SessionActionView) -> LaunchView {
        if self.use_mosh {
            LaunchView::Mosh { args: self.mosh_args(self.remote_command(action)) }
        } else {
            LaunchView::Ssh { args: self.tty_args(self.remote_command(action)) }
        }
    }

    /// The program that comes next once one has ended with the exit code `rc`,
    /// or with none: after a lost ssh link, an ssh that attaches to the
    /// session again; else none.
    pub open spec fn next_launch(
        self,
        action: SessionActionView,
        rc: Option<i32>,
    ) -> Option<LaunchView> {
        if self.use_mosh || rc == Some(0i32) {
            None
        } else {
            let again = SessionActionView::Attach { name: action.session_name() };
            Some(LaunchView::Ssh { args: self.tty_args(self.remote_command(again)) })
        }
    }
}

impl Remote {
    /// The program that starts an action.
    pub fn run_interactive(&self, action: &SessionAction) -> (r: Launch)
        ensures
            r@ == self@.first_launch(action@),
    {
        let full = self.build_remote_cmd(action);
        if self.use_mosh {
            let mut args: Vec<String> = Vec::new();
            push_text(&mut args, self.host.as_str());
            push_text(&mut args, "--");
            push_text(&mut args, "bash");
            push_text(&mut args, "-lc");
            push_text(&mut args, full.as_str());
            assert(text::texts(args@) =~= self@.mosh_args(full@));
            Launch::Mosh { args }
        } else {
            Launch::Ssh { args: self.ssh_tty(full.as_str()) }
        }
    }

    /// The program that comes next once one has ended with the exit code `rc`.
    /// It is to start [`RECONNECT_SECONDS`] later.
    pub fn reconnect(&self, action: &SessionAction, rc: Option<i32>) -> (r: Option<Launch>)
        ensures
            match r {
                Some(launch) => self@.next_launch(action@, rc) == Some(launch@),
                None => self@.next_launch(action@, rc) is None,
            },
    {
        if self.use_mosh {
            return None;
        }
        if let Some(code) = rc {
            if code == 0 {
                return None;
            }
        }
        let again = SessionAction::Attach { name: action.session_name().to_string() };
        let full = self.build_remote_cmd(&again);
        Some(Launch::Ssh { args: self.ssh_tty(full.as_str()) })
    }
}

// --- Laws ---

/// A session that was left in an orderly way is not started again, and mosh,
/// which keeps its own link, never is.
pub proof fn a_clean_exit_ends_it(remote: RemoteView, action: SessionActionView, rc: Option<i32>)
    ensures
        remote.next_launch(action, Some(0)) is None,
        remote.use_mosh ==> remote.next_launch(action, rc) is None,
        !remote.use_mosh && rc != Some(0i32) ==> remote.next_launch(action, rc) is Some,
{
}

/// A lost link is taken up where it was: whatever was started first, the next
/// one attaches to the same session, and so does every later one.
pub proof fn reconnecting_attaches_to_the_same_session(
    remote: RemoteView,
    action: SessionActionView,
    rc: Option<i32>,
)
    requires
        remote.next_launch(action, rc) is Some,
    ensures
        ({
            let again = SessionActionView::Attach { name: action.session_name() };
            &&& remote.next_launch(action, rc) == Some(remote.first_launch(again))
            &&& remote.next_launch(again, rc) == remote.next_launch(action, rc)
        }),
{
}

/// Whether a command ends a session: the one that the shell reads as `name`.
pub open spec fn ends_session(command: Seq<char>, rtmux: Seq<char>, name: Seq<char>) -> bool {
    exists|word: Seq<char>| #[trigger]
        quote::stands_for(word, name) && command == rtmux + " kill-session -t "@ + word
}

/// Whether a command renames a session: the one that the shell reads as `from`,
/// to what the shell reads as `to`.
pub open spec fn renames(
    command: Seq<char>,
    rtmux: Seq<char>,
    from: Seq<char>,
    to: Seq<char>,
) -> bool {
    exists|first: Seq<char>, second: Seq<char>|
        #![trigger quote::stands_for(first, from), quote::stands_for(second, to)]
        quote::stands_for(first, from) && quote::stands_for(second, to) && command == rtmux
            + " rename-session -t "@ + first + " "@ + second
}

/// The command that ends a session ends the one of that very name, whatever the
/// name holds, and the command that renames one gives it exactly the new name.
pub proof fn commands_act_on_the_named_session(
    remote: RemoteView,
    name: Seq<char>,
    from: Seq<char>,
    to: Seq<char>,
)
    ensures
        ends_session(remote.kill_command(name), remote.rtmux, name),
        renames(remote.rename_command(from, to), remote.rtmux, from, to),
{
    quote::quoting_is_exact(name);
    quote::quoting_is_exact(from);
    quote::quoting_is_exact(to);
    assert(quote::stands_for(quote::quoted(name), name));
    assert(quote::stands_for(quote::quoted(from), from));
    assert(quote::stands_for(quote::quoted(to), to));
}

/// Ending the sessions of two lists is ending those of the first and then those
/// of the second; for one session it is the command that ends it, which may fail
/// quietly.
pub proof fn ending_goes_one_by_one(
    remote: RemoteView,
    a: Seq<Seq<char>>,
    b: Seq<Seq<char>>,
    name: Seq<char>,
)
    ensures
        remote.kill_commands(a + b) == remote.kill_commands(a) + remote.kill_commands(b),
        remote.kill_commands(Seq::empty()).len() == 0,
        exists|command: Seq<char>| #[trigger]
            ends_session(command, remote.rtmux, name) && remote.kill_commands(seq![name])
                == command + " 2>/dev/null;"@,
    decreases b.len(),
{
    commands_act_on_the_named_session(remote, name, name, name);
    let none: Seq<Seq<char>> = Seq::empty();
    assert(seq![name].drop_last() =~= none);
    assert(seq![name].last() == name);
    assert(remote.kill_commands(none) =~= Seq::<char>::empty());
    let command = remote.kill_command(name);
    assert(remote.kill_commands(seq![name]) =~= command + " 2>/dev/null;"@);
    assert(ends_session(command, remote.rtmux, name));
    if b.len() == 0 {
        assert(a + b =~= a);
        assert(remote.kill_commands(a) + remote.kill_commands(b) =~= remote.kill_commands(a));
    } else {
        let rest = b.drop_last();
        ending_goes_one_by_one(remote, a, rest, name);
        assert((a + b).drop_last() =~= a + rest);
        assert((a + b).last() == b.last());
        assert(remote.kill_commands(a + b) =~= remote.kill_commands(a) + remote.kill_commands(b));
    }
}

/// Whether a remote command hands the terminal to what an action asks for: at
/// its end stands a command that carries the action out.
pub open spec fn hands_over(
    command: Seq<char>,
    rtmux: Seq<char>,
    action: SessionActionView,
) -> bool {
    exists|before: Seq<char>, last: Seq<char>| #[trigger]
        ends_with(command, before, last) && ssh::carries_out(last, rtmux, action)
}

/// Whether a command ends with `last`, which a blank separates from what stands
/// before.
pub open spec fn ends_with(command: Seq<char>, before: Seq<char>, last: Seq<char>) -> bool {
    command == before + last && before.len() > 0 && before.last() == ' '
}

/// The remote command of every action ends with the tmux command that carries
/// out that very action. Without a sidebar nothing but blanks stands before it;
/// with one, the command starts by exporting the sidebar's variables and has
/// tmux hand the socket on, and where it attaches, it tells the session of the
/// sidebar.
pub proof fn the_remote_command_carries_the_action_out(
    remote: RemoteView,
    action: SessionActionView,
)
    ensures
        hands_over(remote.remote_command(action), remote.rtmux, action),
        remote.cmux is None ==> remote.remote_command(action) == "   "@ + action.tmux_cmd(
            remote.rtmux,
        ),
        remote.cmux matches Some(c) ==> {
            &&& c.export_prefix().is_prefix_of(remote.remote_command(action))
            &&& exists|before: Seq<char>, after: Seq<char>| #[trigger]
                holds_between(remote.remote_command(action), before, c.tmux_env(remote.rtmux), after)
            &&& action matches SessionActionView::Attach { name } ==> exists|
                before: Seq<char>,
                after: Seq<char>,
            | #[trigger]
                holds_between(remote.remote_command(action), before, c.session_env(name), after)
        },
{
    let whole = remote.remote_command(action);
    let last = action.tmux_cmd(remote.rtmux);
    ssh::tmux_carries_the_action_out(action, remote.rtmux);
    let (prefix, tmux_env, per_session) = match remote.cmux {
        Some(c) => (
            c.export_prefix(),
            c.tmux_env(remote.rtmux),
            match action {
                SessionActionView::Attach { name } => c.session_env(name),
                _ => Seq::empty(),
            },
        ),
        None => (Seq::empty(), Seq::empty(), Seq::empty()),
    };
    let blank = " "@;
    reveal_strlit(" ");
    let before = prefix + blank + tmux_env + blank + per_session + blank;
    assert(ends_with(whole, before, last));
    if remote.cmux is None {
        reveal_strlit("   ");
        assert(before =~= "   "@);
    } else {
        assert(whole =~= (prefix + blank) + tmux_env + (blank + per_session + blank + last));
        assert(holds_between(whole, prefix + blank, tmux_env, blank + per_session + blank + last));
        assert(whole =~= (prefix + blank + tmux_env + blank) + per_session + (blank + last));
        assert(holds_between(
            whole,
            prefix + blank + tmux_env + blank,
            per_session,
            blank + last,
        ));
    }
}

/// Whether a command holds a part between two others, which a blank separates
/// from it.
pub open spec fn holds_between(
    command: Seq<char>,
    before: Seq<char>,
    part: Seq<char>,
    after: Seq<char>,
) -> bool {
    &&& command == before + part + after
    &&& before.len() > 0 && before.last() == ' '
    &&& after.len() > 0 && after[0] == ' '
}

/// Whether the arguments of an ssh name the host and hand its terminal to what
/// an action asks for: first the options, with those that forward the socket of
/// the sidebar where there is one, then `-t`, the host and the command.
pub open spec fn ssh_hands_over(
    args: Seq<Seq<char>>,
    remote: RemoteView,
    action: SessionActionView,
) -> bool {
    let n = args.len() as int;
    &&& n >= remote.ssh_opts.len() + 3
    &&& args.take(remote.ssh_opts.len() as int) == remote.ssh_opts
    &&& args[n - 3] == "-t"@
    &&& args[n - 2] == remote.host
    &&& hands_over(args[n - 1], remote.rtmux, action)
    &&& match remote.cmux {
        None => n == remote.ssh_opts.len() + 3,
        Some(c) => {
            &&& n == remote.ssh_opts.len() + 9
            &&& args[n - 9] == "-o"@ && args[n - 8] == "StreamLocalBindUnlink=yes"@
            &&& args[n - 7] == "-o"@ && args[n - 6] == "ControlPath=none"@
            &&& args[n - 5] == "-R"@ && args[n - 4] == c.remote_sock + ":"@ + c.local_sock
        },
    }
}

/// The program that an action starts takes the terminal to the right session on
/// the right host: with ssh, or with mosh where that is asked for.
pub proof fn the_terminal_goes_to_the_session(remote: RemoteView, action: SessionActionView)
    ensures
        match remote.first_launch(action) {
            LaunchView::Ssh { args } => !remote.use_mosh && ssh_hands_over(args, remote, action),
            LaunchView::Mosh { args } => remote.use_mosh && args.len() == 5 && args[0]
                == remote.host && args[1] == "--"@ && args[2] == "bash"@ && args[3] == "-lc"@
                && hands_over(args[4], remote.rtmux, action),
        },
{
    the_remote_command_carries_the_action_out(remote, action);
    let args = remote.tty_args(remote.remote_command(action));
    assert(args.take(remote.ssh_opts.len() as int) =~= remote.ssh_opts);
}

/// A lost ssh link is taken up by an ssh that attaches to the session that the
/// action was for, on the same host.
pub proof fn reconnecting_goes_to_the_same_session(
    remote: RemoteView,
    name: Seq<char>,
    dir: Seq<char>,
    rc: Option<i32>,
)
    requires
        !remote.use_mosh,
        rc != Some(0i32),
    ensures
        remote.next_launch(SessionActionView::Attach { name }, rc) matches Some(
            LaunchView::Ssh { args },
        ) && ssh_hands_over(args, remote, SessionActionView::Attach { name }),
        remote.next_launch(SessionActionView::New { name }, rc) matches Some(
            LaunchView::Ssh { args },
        ) && ssh_hands_over(args, remote, SessionActionView::Attach { name }),
        remote.next_launch(SessionActionView::NewInDir { name, dir }, rc) matches Some(
            LaunchView::Ssh { args },
        ) && ssh_hands_over(args, remote, SessionActionView::Attach { name }),
{
    the_terminal_goes_to_the_session(remote, SessionActionView::Attach { name });
}

/// A command whose output is captured runs on the host: behind the options stand
/// the host and the command.
pub proof fn captured_commands_run_on_the_host(remote: RemoteView, command: Seq<char>)
    ensures
        remote.capture_args(command).len() == remote.ssh_opts.len() + 2,
        remote.capture_args(command).take(remote.ssh_opts.len() as int) == remote.ssh_opts,
        remote.capture_args(command)[remote.ssh_opts.len() as int] == remote.host,
        remote.capture_args(command).last() == command,
{
    assert(remote.capture_args(command).take(remote.ssh_opts.len() as int) =~= remote.ssh_opts);
}

/// The short name of a host is what stands before its first dot, or all of it.
pub proof fn short_names_hold_no_dot(remote: RemoteView)
    ensures
        remote.short_host().is_prefix_of(remote.host),
        !remote.short_host().contains('.'),
        remote.short_host() == remote.host || remote.host[remote.short_host().len() as int] == '.',
{
    text::lemma_find_bounds(remote.host, '.');
    if text::find(remote.host, '.') == remote.host.len() {
        assert(remote.short_host() =~= remote.host);
    }
}

}
