//! The desktop shell: launching from the stored defaults or a saved session,
//! changing the stored settings, and the interactive command loop.
use vstd::prelude::*;

use crate::config_service::{
    default_config, lemma_config_roundtrip, parse_config, storable_config, stored_config,
    ConfigService, ConfigView, DesktopConfig,
};
use crate::session_service::{lookup, parse_sessions, SessionService, SessionView};
use crate::text::{
    chars_of, find, find_char, join, lemma_find_char, lemma_find_from, lemma_find_from_at,
    lemma_find_from_none, lemma_join_push, occurs_at, push_str, starts_with, starts_with_chars,
    string_of, sub_chars, trim, trim_chars,
};
use crate::{
    command_result, copy_error, detected, error_text, lemma_planned_command_layout, option_words,
    planned_command, ErrorView, KittyAdapter, KittyAdapterError, KittyLaunchConfig, LaunchView,
};

verus! {

/// What reading each store gave: `Ok(None)` when its file does not exist,
/// `Ok(Some(text))` with its text, or the error reading it failed with.
#[derive(Debug)]
pub struct StoreSnapshot {
    pub config: Result<Option<String>, KittyAdapterError>,
    pub sessions: Result<Option<String>, KittyAdapterError>,
}

/// The content of what reading a store gave.
pub open spec fn stored_text(r: Result<Option<String>, KittyAdapterError>) -> Result<
    Option<Seq<char>>,
    ErrorView,
> {
    match r {
        Ok(Some(t)) => Ok(Some(t@)),
        Ok(None) => Ok(None),
        Err(e) => Err(e@),
    }
}

/// The configuration loaded from what reading its store gave.
pub open spec fn loaded_config(r: Result<Option<Seq<char>>, ErrorView>) -> Result<
    ConfigView,
    ErrorView,
> {
    match r {
        Ok(Some(t)) => Ok(parse_config(t)),
        Ok(None) => Ok(default_config()),
        Err(e) => Err(e),
    }
}

/// The sessions listed from what reading their store gave.
pub open spec fn loaded_sessions(r: Result<Option<Seq<char>>, ErrorView>) -> Result<
    Seq<SessionView>,
    ErrorView,
> {
    match r {
        Ok(Some(t)) => Ok(parse_sessions(t)),
        Ok(None) => Ok(Seq::empty()),
        Err(e) => Err(e),
    }
}

/// What kitty is launched with: the stored defaults, where a session's
/// directory, shell, title and arguments take the place of the defaults'.
pub open spec fn profile_launch(c: ConfigView, s: Option<SessionView>) -> LaunchView {
    match s {
        None => LaunchView {
            working_directory: Some(c.default_directory),
            shell: c.default_shell,
            session_file: None,
            title: Some(c.default_title),
            config_file: c.kitty_config_file,
            extra_args: Seq::empty(),
        },
        Some(s) => LaunchView {
            working_directory: Some(s.directory),
            shell: s.shell,
            session_file: None,
            title: s.title,
            config_file: c.kitty_config_file,
            extra_args: s.extra_args,
        },
    }
}

/// The command line for launching from a profile, or why there is none: the
/// configuration could not be read, the sessions could not be read, no
/// session has the profile's name, or kitty was not found.
pub open spec fn planned_profile_launch(
    candidates: Seq<Seq<char>>,
    profile: Option<Seq<char>>,
    config: Result<Option<Seq<char>>, ErrorView>,
    sessions: Result<Option<Seq<char>>, ErrorView>,
    resolved: Seq<Option<Seq<char>>>,
) -> Result<Seq<Seq<char>>, ErrorView> {
    match loaded_config(config) {
        Err(e) => Err(e),
        Ok(c) => match profile {
            None => planned_command(candidates, resolved, profile_launch(c, None)),
            Some(name) => match loaded_sessions(sessions) {
                Err(e) => Err(e),
                Ok(ss) => match lookup(ss, name) {
                    None => Err(ErrorView::CommandFailed("session profile not found: "@ + name)),
                    Some(s) => planned_command(candidates, resolved, profile_launch(c, Some(s))),
                },
            },
        },
    }
}

/// Launching from a profile, where the configuration can be read as `c`:
/// the executable found first runs with `--directory`. From the stored
/// defaults it gets the stored directory, `--title` and the stored title,
/// `--config` and the stored kitty configuration file where one is set, and
/// `--` and the stored shell where one is set, and nothing else. From a
/// saved session it gets the session's directory, its title after
/// `--title` where set, still the stored kitty configuration file after
/// `--config`, then the session's arguments in order, then `--` and the
/// session's shell where set, and nothing else.
pub proof fn lemma_profile_launch_layout(
    candidates: Seq<Seq<char>>,
    profile: Option<Seq<char>>,
    config: Result<Option<Seq<char>>, ErrorView>,
    sessions: Result<Option<Seq<char>>, ErrorView>,
    resolved: Seq<Option<Seq<char>>>,
    c: ConfigView,
    cmd: Seq<Seq<char>>,
)
    requires
        loaded_config(config) == Ok::<ConfigView, ErrorView>(c),
        planned_profile_launch(candidates, profile, config, sessions, resolved) == Ok::<
            Seq<Seq<char>>,
            ErrorView,
        >(cmd),
    ensures
        detected(candidates, resolved) == Ok::<Seq<char>, ErrorView>(cmd[0]),
        cmd[1] == "--directory"@,
        profile is None ==> ({
            &&& cmd[2] == c.default_directory
            &&& cmd[3] == "--title"@
            &&& cmd[4] == c.default_title
            &&& (c.kitty_config_file matches Some(f) ==> cmd[5] == "--config"@ && cmd[6] == f)
            &&& cmd.len() == 5 + option_words(c.kitty_config_file) + option_words(c.default_shell)
            &&& (c.default_shell matches Some(v) ==> cmd[cmd.len() - 2] == "--"@ && cmd[cmd.len()
                - 1] == v)
        }),
        profile matches Some(name) ==> (loaded_sessions(sessions) matches Ok(ss) && lookup(
            ss,
            name,
        ) matches Some(s) && ({
            let a = 3 + option_words(s.title);
            let k = a + option_words(c.kitty_config_file);
            &&& cmd[2] == s.directory
            &&& (s.title matches Some(t) ==> cmd[3] == "--title"@ && cmd[4] == t)
            &&& (c.kitty_config_file matches Some(f) ==> cmd[a] == "--config"@ && cmd[a + 1] == f)
            &&& cmd.subrange(k, k + s.extra_args.len()) == s.extra_args
            &&& cmd.len() == k + s.extra_args.len() + option_words(s.shell)
            &&& (s.shell matches Some(v) ==> cmd[cmd.len() - 2] == "--"@ && cmd[cmd.len() - 1] == v)
        })),
{
    match profile {
        None => {
            lemma_planned_command_layout(candidates, resolved, profile_launch(c, None), cmd);
        },
        Some(name) => {
            let ss = loaded_sessions(sessions)->Ok_0;
            let s = lookup(ss, name)->Some_0;
            lemma_planned_command_layout(candidates, resolved, profile_launch(c, Some(s)), cmd);
        },
    }
}

/// Saving settings puts each setting that is given in place of the stored
/// one, and keeps each stored setting that is not given.
pub proof fn lemma_settings_fields(
    c: ConfigView,
    directory: Option<Seq<char>>,
    shell: Option<Seq<char>>,
    title: Option<Seq<char>>,
    kitty_config: Option<Seq<char>>,
)
    ensures
        ({
            let r = applied_settings(c, directory, shell, title, kitty_config);
            &&& (directory matches Some(v) ==> r.default_directory == v)
            &&& (directory is None ==> r.default_directory == c.default_directory)
            &&& (shell is Some ==> r.default_shell == shell)
            &&& (shell is None ==> r.default_shell == c.default_shell)
            &&& (title matches Some(v) ==> r.default_title == v)
            &&& (title is None ==> r.default_title == c.default_title)
            &&& (kitty_config is Some ==> r.kitty_config_file == kitty_config)
            &&& (kitty_config is None ==> r.kitty_config_file == c.kitty_config_file)
        }),
{
}

/// The configuration with each given setting in place of the stored one.
pub open spec fn applied_settings(
    c: ConfigView,
    directory: Option<Seq<char>>,
    shell: Option<Seq<char>>,
    title: Option<Seq<char>>,
    kitty_config: Option<Seq<char>>,
) -> ConfigView {
    ConfigView {
        default_directory: match directory {
            Some(d) => d,
            None => c.default_directory,
        },
        default_shell: match shell {
            Some(s) => Some(s),
            None => c.default_shell,
        },
        default_title: match title {
            Some(t) => t,
            None => c.default_title,
        },
        kitty_config_file: match kitty_config {
            Some(k) => Some(k),
            None => c.kitty_config_file,
        },
    }
}

/// Saving settings and reading the store back gives the saved settings,
/// whenever the resulting strings hold no `"`.
pub proof fn lemma_settings_saved(
    c: ConfigView,
    directory: Option<Seq<char>>,
    shell: Option<Seq<char>>,
    title: Option<Seq<char>>,
    kitty_config: Option<Seq<char>>,
)
    requires
        storable_config(applied_settings(c, directory, shell, title, kitty_config)),
    ensures
        parse_config(stored_config(applied_settings(c, directory, shell, title, kitty_config)))
            == applied_settings(c, directory, shell, title, kitty_config),
{
    lemma_config_roundtrip(applied_settings(c, directory, shell, title, kitty_config));
}

/// The content of a result that carries a configuration.
pub open spec fn config_result(r: Result<DesktopConfig, KittyAdapterError>) -> Result<
    ConfigView,
    ErrorView,
> {
    match r {
        Ok(c) => Ok(c@),
        Err(e) => Err(e@),
    }
}

/// The content of a borrowed store text.
fn as_text(stored: &Option<String>) -> (r: Option<&str>)
    ensures
        match r {
            Some(t) => stored.deep_view() == Some(t@),
            None => stored.deep_view() is None,
        },
{
    match stored {
        Some(t) => Some(t.as_str()),
        None => None,
    }
}

/// The desktop shell: the adapter and the two stores.
#[derive(Debug, Clone)]
pub struct DesktopShell {
    pub adapter: KittyAdapter,
    pub config_service: ConfigService,
    pub session_service: SessionService,
}

impl DesktopShell {
    /// A shell over the given stores that looks for `kitty`.
    pub fn new(config_path: String, session_path: String) -> (s: Self)
        ensures
            s.adapter.candidates() == seq!["kitty"@],
            s.config_service.spec_config_path() == config_path@,
            s.session_service.spec_store_path() == session_path@,
    {
        Self::new_with_adapter(KittyAdapter::default(), config_path, session_path)
    }

    /// A shell over the given stores with the given adapter.
    pub fn new_with_adapter(adapter: KittyAdapter, config_path: String, session_path: String) -> (s:
        Self)
        ensures
            s.adapter == adapter,
            s.config_service.spec_config_path() == config_path@,
            s.session_service.spec_store_path() == session_path@,
    {
        DesktopShell {
            adapter,
            config_service: ConfigService::new(config_path),
            session_service: SessionService::new(session_path),
        }
    }

    /// The configuration given what reading its store gave.
    fn load_config(&self, snapshot: &StoreSnapshot) -> (r: Result<DesktopConfig, KittyAdapterError>)
        ensures
            config_result(r) == loaded_config(stored_text(snapshot.config)),
    {
        match &snapshot.config {
            Err(e) => Err(copy_error(e)),
            Ok(stored) => self.config_service.load(as_text(stored)),
        }
    }

    /// The command line that launching from the stored defaults, or from the
    /// saved session `profile_name`, runs; `resolved` holds what the search
    /// of `PATH` gave for each executable candidate.
    pub fn launch_from_profile(
        &self,
        profile_name: Option<&str>,
        snapshot: &StoreSnapshot,
        resolved: &Vec<Option<String>>,
    ) -> (r: Result<Vec<String>, KittyAdapterError>)
        ensures
            command_result(r) == planned_profile_launch(
                self.adapter.candidates(),
                match profile_name {
                    Some(n) => Some(n@),
                    None => None,
                },
                stored_text(snapshot.config),
                stored_text(snapshot.sessions),
                resolved.deep_view(),
            ),
    {
        let config = self.load_config(snapshot)?;
        let mut launch = KittyLaunchConfig::new();
        launch.working_directory = Some(config.default_directory);
        launch.shell = config.default_shell;
        launch.title = Some(config.default_title);
        launch.config_file = config.kitty_config_file;
        if let Some(name) = profile_name {
            let stored = match &snapshot.sessions {
                Err(e) => {
                    return Err(copy_error(e));
                },
                Ok(stored) => stored,
            };
            match self.session_service.get_session(as_text(stored), name)? {
                Some(session) => {
                    launch.working_directory = Some(session.directory);
                    launch.shell = session.shell;
                    launch.title = session.title;
                    launch.extra_args = session.extra_args;
                },
                None => {
                    let mut msg = chars_of("session profile not found: ");
                    push_str(&mut msg, name);
                    return Err(KittyAdapterError::CommandFailed(string_of(&msg)));
                },
            }
        }
        self.adapter.build_launch_command(&launch, resolved)
    }

    /// The configuration after saving the given settings over what reading
    /// its store gave; the caller writes it back.
    pub fn save_settings(
        &self,
        stored: &Result<Option<String>, KittyAdapterError>,
        directory: Option<String>,
        shell: Option<String>,
        title: Option<String>,
        kitty_config: Option<String>,
    ) -> (r: Result<DesktopConfig, KittyAdapterError>)
        ensures
            config_result(r) == match loaded_config(stored_text(*stored)) {
                Ok(c) => Ok(
                    applied_settings(
                        c,
                        directory.deep_view(),
                        shell.deep_view(),
                        title.deep_view(),
                        kitty_config.deep_view(),
                    ),
                ),
                Err(e) => Err(e),
            },
            r matches Ok(cfg) ==> ({
                &&& (directory is Some ==> Some(cfg.default_directory@) == directory.deep_view())
                &&& (shell is Some ==> cfg.default_shell.deep_view() == shell.deep_view())
                &&& (title is Some ==> Some(cfg.default_title@) == title.deep_view())
                &&& (kitty_config is Some ==> cfg.kitty_config_file.deep_view()
                    == kitty_config.deep_view())
            }),
    {
        let mut cfg = match stored {
            Err(e) => {
                return Err(copy_error(e));
            },
            Ok(s) => self.config_service.load(as_text(s))?,
        };
        if let Some(v) = directory {
            cfg.default_directory = v;
        }
        if let Some(v) = shell {
            cfg.default_shell = Some(v);
        }
        if let Some(v) = title {
            cfg.default_title = v;
        }
        if let Some(v) = kitty_config {
            cfg.kitty_config_file = Some(v);
        }
        Ok(cfg)
    }
}

// ---------------------------------------------------------------------------
// The interactive command loop
// ---------------------------------------------------------------------------

/// A command typed at the shell's prompt.
#[derive(Debug, Clone, PartialEq, Eq)]
pub enum ReplCommand {
    /// An empty line: prompt again.
    Skip,
    /// `exit` or `quit`.
    Exit,
    /// `settings`: show the stored defaults.
    Settings,
    /// `launch` with an optional session name: show the command line.
    Launch(Option<String>),
    /// Anything else.
    Unknown(String),
}

/// The mathematical content of a [`ReplCommand`].
pub enum ReplCommandView {
    Skip,
    Exit,
    Settings,
    Launch(Option<Seq<char>>),
    Unknown(Seq<char>),
}

impl View for ReplCommand {
    type V = ReplCommandView;

    open spec fn view(&self) -> ReplCommandView {
        match self {
            ReplCommand::Skip => ReplCommandView::Skip,
            ReplCommand::Exit => ReplCommandView::Exit,
            ReplCommand::Settings => ReplCommandView::Settings,
            ReplCommand::Launch(p) => ReplCommandView::Launch(p.deep_view()),
            ReplCommand::Unknown(u) => ReplCommandView::Unknown(u@),
        }
    }
}

/// The command on a line typed at the prompt, which is read trimmed.
pub open spec fn repl_command(line: Seq<char>) -> ReplCommandView {
    let t = trim(line);
    if t.len() == 0 {
        ReplCommandView::Skip
    } else if t == "exit"@ || t == "quit"@ {
        ReplCommandView::Exit
    } else if t == "settings"@ {
        ReplCommandView::Settings
    } else if starts_with(t, "launch"@) {
        let p = trim(t.skip(6));
        ReplCommandView::Launch(if p.len() == 0 { None } else { Some(p) })
    } else {
        ReplCommandView::Unknown(t)
    }
}

/// The command on a line typed at the prompt.
pub fn parse_repl_line(line: &str) -> (c: ReplCommand)
    ensures
        c@ == repl_command(line@),
{
    let raw = chars_of(line);
    let t = trim_chars(&raw);
    proof {
        reveal_strlit("exit");
        reveal_strlit("quit");
        reveal_strlit("settings");
        reveal_strlit("launch");
    }
    if t.len() == 0 {
        return ReplCommand::Skip;
    }
    let exit = chars_of("exit");
    let quit = chars_of("quit");
    let settings = chars_of("settings");
    let launch = chars_of("launch");
    if same_chars(&t, &exit) || same_chars(&t, &quit) {
        return ReplCommand::Exit;
    }
    if same_chars(&t, &settings) {
        return ReplCommand::Settings;
    }
    if starts_with_chars(&t, &launch) {
        let after = sub_chars(&t, 6, t.len());
        assert(after@ =~= t@.skip(6));
        let p = trim_chars(&after);
        if p.len() == 0 {
            return ReplCommand::Launch(None);
        }
        return ReplCommand::Launch(Some(string_of(&p)));
    }
    ReplCommand::Unknown(string_of(&t))
}

/// The two character sequences are equal.
fn same_chars(a: &Vec<char>, b: &Vec<char>) -> (r: bool)
    ensures
        r == (a@ == b@),
{
    if a.len() != b.len() {
        return false;
    }
    let mut i: usize = 0;
    while i < a.len()
        invariant
            i <= a.len() == b.len(),
            forall|j: int| 0 <= j < i ==> a@[j] == b@[j],
        decreases a.len() - i,
    {
        if a[i] != b[i] {
            return false;
        }
        i = i + 1;
    }
    assert(a@ =~= b@);
    true
}

/// The line that introduces the interactive shell.
pub open spec fn repl_banner() -> Seq<char> {
    "kitty_desktop shell (commands: launch [name], settings, exit)\n"@
}

/// The line that introduces the interactive shell.
pub fn repl_banner_text() -> (s: String)
    ensures
        s@ == repl_banner(),
{
    String::from_str("kitty_desktop shell (commands: launch [name], settings, exit)\n")
}

/// The prompt shown before each line is read.
pub fn repl_prompt() -> (s: String)
    ensures
        s@ == "> "@,
{
    String::from_str("> ")
}

/// The text printed for a command, or the error that ends the loop (only
/// `settings` can fail, when the configuration cannot be read).
pub open spec fn repl_reply(
    candidates: Seq<Seq<char>>,
    cmd: ReplCommandView,
    config: Result<Option<Seq<char>>, ErrorView>,
    sessions: Result<Option<Seq<char>>, ErrorView>,
    resolved: Seq<Option<Seq<char>>>,
) -> Result<Seq<char>, ErrorView> {
    match cmd {
        ReplCommandView::Skip => Ok(Seq::empty()),
        ReplCommandView::Exit => Ok("bye\n"@),
        ReplCommandView::Settings => match loaded_config(config) {
            Err(e) => Err(e),
            Ok(c) => Ok(
                "directory="@ + c.default_directory + "\nshell="@ + (match c.default_shell {
                    Some(s) => s,
                    None => Seq::empty(),
                }) + "\ntitle="@ + c.default_title + "\n"@,
            ),
        },
        ReplCommandView::Launch(p) => match planned_profile_launch(
            candidates,
            p,
            config,
            sessions,
            resolved,
        ) {
            Ok(cmd) => Ok(join(cmd, " "@) + "\n"@),
            Err(e) => Ok("ERROR: "@ + error_text(e) + "\n"@),
        },
        ReplCommandView::Unknown(u) => Ok("unknown command: "@ + u + "\n"@),
    }
}

/// The first line of `input` (with its line break) and the rest.
pub open spec fn next_line(input: Seq<char>) -> (Seq<char>, Seq<char>) {
    match find(input, seq!['\n']) {
        Some(i) => (input.take(i + 1), input.skip(i + 1)),
        None => (input, Seq::empty()),
    }
}

/// What the loop prints, line by line, for the typed `input`, and how it
/// ends: a prompt before each line, the reply to each command, `bye` at
/// `exit`, and a last prompt when the input ends.
pub open spec fn repl_session(
    candidates: Seq<Seq<char>>,
    input: Seq<char>,
    config: Result<Option<Seq<char>>, ErrorView>,
    sessions: Result<Option<Seq<char>>, ErrorView>,
    resolved: Seq<Option<Seq<char>>>,
) -> (Seq<char>, Result<(), ErrorView>)
    decreases input.len(),
{
    if input.len() == 0 {
        ("> "@, Ok(()))
    } else {
        let line = next_line(input).0;
        let rest = next_line(input).1;
        proof {
            lemma_find_from(input, seq!['\n'], 0);
        }
        match repl_command(line) {
            ReplCommandView::Skip => {
                let next = repl_session(candidates, rest, config, sessions, resolved);
                ("> "@ + next.0, next.1)
            },
            ReplCommandView::Exit => ("> "@ + "bye\n"@, Ok(())),
            cmd => match repl_reply(candidates, cmd, config, sessions, resolved) {
                Err(e) => ("> "@, Err(e)),
                Ok(text) => {
                    let next = repl_session(candidates, rest, config, sessions, resolved);
                    ("> "@ + text + next.0, next.1)
                },
            },
        }
    }
}

/// What the loop does with one typed line: the text it prints, and whether
/// the loop ends there.
#[derive(Debug)]
pub struct ReplStep {
    pub reply: String,
    pub stop: bool,
}

/// What the loop prints for one typed line and whether it ends there, or the
/// error that ends it.
pub open spec fn repl_line_step(
    candidates: Seq<Seq<char>>,
    line: Seq<char>,
    config: Result<Option<Seq<char>>, ErrorView>,
    sessions: Result<Option<Seq<char>>, ErrorView>,
    resolved: Seq<Option<Seq<char>>>,
) -> Result<(Seq<char>, bool), ErrorView> {
    match repl_reply(candidates, repl_command(line), config, sessions, resolved) {
        Ok(text) => Ok((text, repl_command(line) is Exit)),
        Err(e) => Err(e),
    }
}

/// The content of a step's result.
pub open spec fn step_result(r: Result<ReplStep, KittyAdapterError>) -> Result<
    (Seq<char>, bool),
    ErrorView,
> {
    match r {
        Ok(s) => Ok((s.reply@, s.stop)),
        Err(e) => Err(e@),
    }
}

/// What the loop prints over the lines of `pre` when it neither stops nor
/// fails on any of them; `None` where it does.
pub open spec fn repl_through(
    candidates: Seq<Seq<char>>,
    pre: Seq<char>,
    config: Result<Option<Seq<char>>, ErrorView>,
    sessions: Result<Option<Seq<char>>, ErrorView>,
    resolved: Seq<Option<Seq<char>>>,
) -> Option<Seq<char>>
    decreases pre.len(),
{
    if pre.len() == 0 {
        Some(Seq::empty())
    } else {
        proof {
            lemma_find_from(pre, seq!['\n'], 0);
        }
        match repl_line_step(candidates, next_line(pre).0, config, sessions, resolved) {
            Ok((text, false)) => match repl_through(
                candidates,
                next_line(pre).1,
                config,
                sessions,
                resolved,
            ) {
                Some(o) => Some("> "@ + text + o),
                None => None,
            },
            _ => None,
        }
    }
}

/// Whole typed lines: nothing, or text that ends with a line break.
pub open spec fn whole_lines(pre: Seq<char>) -> bool {
    pre.len() == 0 || pre.last() == '\n'
}

/// One typed line: not empty, and no line break but at its end.
pub open spec fn one_line(line: Seq<char>) -> bool {
    line.len() > 0 && forall|j: int| 0 <= j < line.len() - 1 ==> line[j] != '\n'
}

/// A line read in front of more input is that line, and the rest.
proof fn lemma_next_line_of(line: Seq<char>, rest: Seq<char>)
    requires
        one_line(line),
        line.last() == '\n' || rest.len() == 0,
    ensures
        next_line(line + rest) == (line, rest),
{
    let input = line + rest;
    if line.last() == '\n' {
        lemma_find_char(input, '\n', line.len() - 1);
        assert(input.take(line.len() as int) =~= line);
        assert(input.skip(line.len() as int) =~= rest);
    } else {
        assert(input =~= line);
        assert forall|j: int| 0 <= j implies !occurs_at(input, seq!['\n'], j) by {
            if occurs_at(input, seq!['\n'], j) {
                assert(input.subrange(j, j + 1)[0] == input[j]);
            }
        }
        lemma_find_from_none(input, seq!['\n'], 0);
    }
}

/// The first line of whole lines, read in front of more input, is read
/// from those lines alone.
proof fn lemma_next_line_prefix(pre: Seq<char>, rest: Seq<char>)
    requires
        pre.len() > 0,
        pre.last() == '\n',
    ensures
        next_line(pre + rest) == (next_line(pre).0, next_line(pre).1 + rest),
        next_line(pre).1.len() < pre.len(),
        whole_lines(next_line(pre).1),
{
    let nl = seq!['\n'];
    let input = pre + rest;
    assert(occurs_at(pre, nl, pre.len() - 1)) by {
        assert(pre.subrange(pre.len() - 1, pre.len() as int) =~= nl);
    }
    lemma_find_from(pre, nl, 0);
    let k = find(pre, nl)->Some_0;
    assert forall|j: int| 0 <= j <= k implies occurs_at(input, nl, j) == occurs_at(pre, nl, j) by {
        assert(input.subrange(j, j + 1) =~= pre.subrange(j, j + 1));
    }
    lemma_find_from_at(input, nl, 0, k);
    assert(input.take(k + 1) =~= pre.take(k + 1));
    assert(input.skip(k + 1) =~= pre.skip(k + 1) + rest);
}

/// Running the loop over whole lines on which it neither stops nor fails
/// prints what those lines print, and then goes on with the rest of the
/// input as if it had started there.
pub proof fn lemma_repl_through(
    candidates: Seq<Seq<char>>,
    pre: Seq<char>,
    rest: Seq<char>,
    config: Result<Option<Seq<char>>, ErrorView>,
    sessions: Result<Option<Seq<char>>, ErrorView>,
    resolved: Seq<Option<Seq<char>>>,
)
    requires
        whole_lines(pre),
        repl_through(candidates, pre, config, sessions, resolved) is Some,
    ensures
        ({
            let o = repl_through(candidates, pre, config, sessions, resolved)->Some_0;
            let later = repl_session(candidates, rest, config, sessions, resolved);
            repl_session(candidates, pre + rest, config, sessions, resolved) == (o + later.0, later.1)
        }),
    decreases pre.len(),
{
    if pre.len() == 0 {
        assert(pre + rest =~= rest);
    } else {
        lemma_next_line_prefix(pre, rest);
        lemma_find_from(pre + rest, seq!['\n'], 0);
        let line = next_line(pre).0;
        let pre2 = next_line(pre).1;
        let text = repl_line_step(candidates, line, config, sessions, resolved)->Ok_0.0;
        lemma_repl_through(candidates, pre2, rest, config, sessions, resolved);
        let o2 = repl_through(candidates, pre2, config, sessions, resolved)->Some_0;
        let later = repl_session(candidates, rest, config, sessions, resolved);
        if repl_command(line) is Skip {
            assert(text == Seq::<char>::empty());
        }
        assert("> "@ + text + (o2 + later.0) =~= "> "@ + text + o2 + later.0);
    }
}

/// What the loop prints for one line typed after whole lines on which it
/// neither stopped nor failed: the reply to that line after a prompt, and
/// then, unless it stops or fails there, what the rest of the input gives.
pub proof fn lemma_repl_line(
    candidates: Seq<Seq<char>>,
    pre: Seq<char>,
    line: Seq<char>,
    rest: Seq<char>,
    config: Result<Option<Seq<char>>, ErrorView>,
    sessions: Result<Option<Seq<char>>, ErrorView>,
    resolved: Seq<Option<Seq<char>>>,
)
    requires
        whole_lines(pre),
        repl_through(candidates, pre, config, sessions, resolved) is Some,
        one_line(line),
        line.last() == '\n' || rest.len() == 0,
    ensures
        ({
            let o = repl_through(candidates, pre, config, sessions, resolved)->Some_0;
            let later = repl_session(candidates, rest, config, sessions, resolved);
            let run = repl_session(candidates, pre + line + rest, config, sessions, resolved);
            match repl_line_step(candidates, line, config, sessions, resolved) {
                Ok((text, false)) => run == (o + "> "@ + text + later.0, later.1),
                Ok((text, true)) => run == (o + "> "@ + text, Ok::<(), ErrorView>(())),
                Err(e) => run == (o + "> "@, Err::<(), ErrorView>(e)),
            }
        }),
{
    assert(pre + line + rest =~= pre + (line + rest));
    lemma_repl_through(candidates, pre, line + rest, config, sessions, resolved);
    lemma_next_line_of(line, rest);
    lemma_find_from(line + rest, seq!['\n'], 0);
    let o = repl_through(candidates, pre, config, sessions, resolved)->Some_0;
    let later = repl_session(candidates, rest, config, sessions, resolved);
    let here = repl_session(candidates, line + rest, config, sessions, resolved);
    match repl_line_step(candidates, line, config, sessions, resolved) {
        Ok((text, false)) => {
            if repl_command(line) is Skip {
                assert(text == Seq::<char>::empty());
                assert(here.0 == "> "@ + later.0);
            }
            assert(here.0 == "> "@ + text + later.0);
            assert(o + ("> "@ + text + later.0) =~= o + "> "@ + text + later.0);
        },
        Ok((text, true)) => {
            assert(o + ("> "@ + text) =~= o + "> "@ + text);
        },
        Err(e) => {},
    }
}

/// A `launch` line typed after whole lines on which the loop neither stopped
/// nor failed is answered with the planned command line, or `ERROR: ` and
/// the reason there is none, and the loop goes on with the next line.
pub proof fn lemma_repl_launch_line(
    candidates: Seq<Seq<char>>,
    pre: Seq<char>,
    line: Seq<char>,
    rest: Seq<char>,
    config: Result<Option<Seq<char>>, ErrorView>,
    sessions: Result<Option<Seq<char>>, ErrorView>,
    resolved: Seq<Option<Seq<char>>>,
)
    requires
        whole_lines(pre),
        repl_through(candidates, pre, config, sessions, resolved) is Some,
        one_line(line),
        line.last() == '\n' || rest.len() == 0,
        repl_command(line) is Launch,
    ensures
        ({
            let o = repl_through(candidates, pre, config, sessions, resolved)->Some_0;
            let later = repl_session(candidates, rest, config, sessions, resolved);
            let reply = match planned_profile_launch(
                candidates,
                repl_command(line)->Launch_0,
                config,
                sessions,
                resolved,
            ) {
                Ok(cmd) => join(cmd, " "@) + "\n"@,
                Err(e) => "ERROR: "@ + error_text(e) + "\n"@,
            };
            repl_session(candidates, pre + line + rest, config, sessions, resolved) == (
                o + "> "@ + reply + later.0,
                later.1,
            )
        }),
{
    lemma_repl_line(candidates, pre, line, rest, config, sessions, resolved);
}

/// A `settings` line typed after whole lines on which the loop neither
/// stopped nor failed is answered with the stored directory, shell (empty
/// where none is set) and title, one per line, when the configuration can be
/// read, and the loop goes on; when it cannot be read, the loop ends with
/// that error.
pub proof fn lemma_repl_settings_line(
    candidates: Seq<Seq<char>>,
    pre: Seq<char>,
    line: Seq<char>,
    rest: Seq<char>,
    config: Result<Option<Seq<char>>, ErrorView>,
    sessions: Result<Option<Seq<char>>, ErrorView>,
    resolved: Seq<Option<Seq<char>>>,
)
    requires
        whole_lines(pre),
        repl_through(candidates, pre, config, sessions, resolved) is Some,
        one_line(line),
        line.last() == '\n' || rest.len() == 0,
        repl_command(line) is Settings,
    ensures
        ({
            let o = repl_through(candidates, pre, config, sessions, resolved)->Some_0;
            let later = repl_session(candidates, rest, config, sessions, resolved);
            let run = repl_session(candidates, pre + line + rest, config, sessions, resolved);
            match loaded_config(config) {
                Ok(c) => run == (
                    o + "> "@ + ("directory="@ + c.default_directory + "\nshell="@ + (
                    match c.default_shell {
                        Some(s) => s,
                        None => Seq::empty(),
                    }) + "\ntitle="@ + c.default_title + "\n"@) + later.0,
                    later.1,
                ),
                Err(e) => run == (o + "> "@, Err::<(), ErrorView>(e)),
            }
        }),
{
    lemma_repl_line(candidates, pre, line, rest, config, sessions, resolved);
}

/// An `exit` or `quit` line typed after whole lines on which the loop
/// neither stopped nor failed is answered with `bye`, and nothing after it
/// is read.
pub proof fn lemma_repl_exit_line(
    candidates: Seq<Seq<char>>,
    pre: Seq<char>,
    line: Seq<char>,
    rest: Seq<char>,
    config: Result<Option<Seq<char>>, ErrorView>,
    sessions: Result<Option<Seq<char>>, ErrorView>,
    resolved: Seq<Option<Seq<char>>>,
)
    requires
        whole_lines(pre),
        repl_through(candidates, pre, config, sessions, resolved) is Some,
        one_line(line),
        line.last() == '\n' || rest.len() == 0,
        repl_command(line) is Exit,
    ensures
        repl_session(candidates, pre + line + rest, config, sessions, resolved) == (
            repl_through(candidates, pre, config, sessions, resolved)->Some_0 + "> bye\n"@,
            Ok::<(), ErrorView>(()),
        ),
{
    lemma_repl_line(candidates, pre, line, rest, config, sessions, resolved);
    reveal_strlit("> ");
    reveal_strlit("bye\n");
    reveal_strlit("> bye\n");
    let o = repl_through(candidates, pre, config, sessions, resolved)->Some_0;
    assert(o + "> "@ + "bye\n"@ =~= o + "> bye\n"@);
}

/// What a run of the interactive loop printed, and how it ended.
#[derive(Debug)]
pub struct ReplTranscript {
    pub output: String,
    pub outcome: Result<(), KittyAdapterError>,
}

/// The content of how a run ended.
pub open spec fn unit_result(r: Result<(), KittyAdapterError>) -> Result<(), ErrorView> {
    match r {
        Ok(()) => Ok(()),
        Err(e) => Err(e@),
    }
}

impl DesktopShell {
    /// The text printed for a command, or the error that ends the loop.
    pub fn respond(
        &self,
        cmd: &ReplCommand,
        snapshot: &StoreSnapshot,
        resolved: &Vec<Option<String>>,
    ) -> (r: Result<String, KittyAdapterError>)
        ensures
            crate::string_result(r) == repl_reply(
                self.adapter.candidates(),
                cmd@,
                stored_text(snapshot.config),
                stored_text(snapshot.sessions),
                resolved.deep_view(),
            ),
    {
        match cmd {
            ReplCommand::Skip => Ok(String::new()),
            ReplCommand::Exit => Ok(String::from_str("bye\n")),
            ReplCommand::Settings => {
                let cfg = self.load_config(snapshot)?;
                let mut out = chars_of("directory=");
                push_str(&mut out, cfg.default_directory.as_str());
                push_str(&mut out, "\nshell=");
                if let Some(s) = &cfg.default_shell {
                    push_str(&mut out, s.as_str());
                }
                push_str(&mut out, "\ntitle=");
                push_str(&mut out, cfg.default_title.as_str());
                push_str(&mut out, "\n");
                Ok(string_of(&out))
            },
            ReplCommand::Launch(p) => {
                let profile = match p {
                    Some(n) => Some(n.as_str()),
                    None => None,
                };
                match self.launch_from_profile(profile, snapshot, resolved) {
                    Ok(cmd) => {
                        let mut out = join_words(&cmd);
                        push_str(&mut out, "\n");
                        Ok(string_of(&out))
                    },
                    Err(e) => {
                        let mut out = chars_of("ERROR: ");
                        push_str(&mut out, e.message().as_str());
                        push_str(&mut out, "\n");
                        Ok(string_of(&out))
                    },
                }
            },
            ReplCommand::Unknown(u) => {
                let mut out = chars_of("unknown command: ");
                push_str(&mut out, u.as_str());
                push_str(&mut out, "\n");
                Ok(string_of(&out))
            },
        }
    }

    /// What the loop does with one typed `line`, with the stores and the
    /// search of `PATH` as the host observed them.
    pub fn repl_step(
        &self,
        line: &str,
        snapshot: &StoreSnapshot,
        resolved: &Vec<Option<String>>,
    ) -> (r: Result<ReplStep, KittyAdapterError>)
        ensures
            step_result(r) == repl_line_step(
                self.adapter.candidates(),
                line@,
                stored_text(snapshot.config),
                stored_text(snapshot.sessions),
                resolved.deep_view(),
            ),
    {
        let cmd = parse_repl_line(line);
        let stop = match cmd {
            ReplCommand::Exit => true,
            _ => false,
        };
        let reply = self.respond(&cmd, snapshot, resolved)?;
        Ok(ReplStep { reply, stop })
    }

    /// Runs the interactive loop over the typed `input`, with the stores and
    /// the search of `PATH` as the host observed them.
    pub fn run_repl(
        &self,
        input: &str,
        snapshot: &StoreSnapshot,
        resolved: &Vec<Option<String>>,
    ) -> (t: ReplTranscript)
        ensures
            ({
                let run = repl_session(
                    self.adapter.candidates(),
                    input@,
                    stored_text(snapshot.config),
                    stored_text(snapshot.sessions),
                    resolved.deep_view(),
                );
                &&& t.output@ == repl_banner() + run.0
                &&& unit_result(t.outcome) == run.1
            }),
    {
        let ghost cands = self.adapter.candidates();
        let ghost cfg = stored_text(snapshot.config);
        let ghost ses = stored_text(snapshot.sessions);
        let ghost res = resolved.deep_view();
        let text = chars_of(input);
        let mut out = chars_of("kitty_desktop shell (commands: launch [name], settings, exit)\n");
        let mut pos: usize = 0;
        assert(text@.skip(0) =~= input@);
        loop
            invariant
                pos <= text.len(),
                text@ == input@,
                cands == self.adapter.candidates(),
                cfg == stored_text(snapshot.config),
                ses == stored_text(snapshot.sessions),
                res == resolved.deep_view(),
                repl_banner() + repl_session(cands, input@, cfg, ses, res).0 == out@
                    + repl_session(cands, text@.skip(pos as int), cfg, ses, res).0,
                repl_session(cands, input@, cfg, ses, res).1 == repl_session(
                    cands,
                    text@.skip(pos as int),
                    cfg,
                    ses,
                    res,
                ).1,
            decreases text.len() - pos,
        {
            let ghost rest = text@.skip(pos as int);
            let ghost before = out@;
            push_str(&mut out, "> ");
            if pos == text.len() {
                assert(rest.len() == 0);
                return ReplTranscript { output: string_of(&out), outcome: Ok(()) };
            }
            let remaining = sub_chars(&text, pos, text.len());
            assert(remaining@ =~= rest);
            let next: usize = match find_char(&remaining, '\n') {
                Some(i) => {
                    proof {
                        lemma_find_from(rest, seq!['\n'], 0);
                    }
                    pos + i + 1
                },
                None => text.len(),
            };
            let line_chars = sub_chars(&text, pos, next);
            assert(line_chars@ =~= next_line(rest).0);
            assert(text@.skip(next as int) =~= next_line(rest).1);
            let line = string_of(&line_chars);
            match self.repl_step(line.as_str(), snapshot, resolved) {
                Err(e) => {
                    return ReplTranscript { output: string_of(&out), outcome: Err(e) };
                },
                Ok(step) => {
                    push_str(&mut out, step.reply.as_str());
                    if step.stop {
                        return ReplTranscript { output: string_of(&out), outcome: Ok(()) };
                    }
                    assert(out@ + repl_session(cands, text@.skip(next as int), cfg, ses, res).0
                        =~= before + repl_session(cands, rest, cfg, ses, res).0);
                    pos = next;
                },
            }
        }
    }
}

/// The words joined by single spaces.
fn join_words(words: &Vec<String>) -> (out: Vec<char>)
    ensures
        out@ == join(words.deep_view(), " "@),
{
    let ghost w = words.deep_view();
    let mut out: Vec<char> = Vec::new();
    let mut i: usize = 0;
    assert(w.take(0) =~= Seq::<Seq<char>>::empty());
    while i < words.len()
        invariant
            i <= words.len(),
            w == words.deep_view(),
            out@ == join(w.take(i as int), " "@),
        decreases words.len() - i,
    {
        proof {
            lemma_join_push(w.take(i as int), " "@, w[i as int]);
            assert(w.take(i as int).push(w[i as int]) =~= w.take(i + 1));
        }
        if i > 0 {
            push_str(&mut out, " ");
        }
        push_str(&mut out, words[i].as_str());
        assert(out@ =~= join(w.take(i + 1), " "@));
        i = i + 1;
    }
    assert(w.take(words.len() as int) =~= w);
    out
}

} // verus!
