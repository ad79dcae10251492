//! A desktop layer around the kitty terminal: launch planning, the stored
//! desktop configuration, saved sessions, diagnostics and the interactive
//! shell, all as verified logic over plain values.
use vstd::prelude::*;

pub mod cli;
pub mod config_service;
pub mod desktop_shell;
pub mod diagnostics;
pub mod session_service;
pub mod text;

pub use config_service::{ConfigService, DesktopConfig};
pub use session_service::{SessionService, SessionTemplate};

use text::{
    chars_of, find_char, first_line, lemma_find_from, push_str, string_of, sub_chars, trim,
    trim_chars,
};

verus! {

// ---------------------------------------------------------------------------
// Errors
// ---------------------------------------------------------------------------

/// What can go wrong when working with kitty and the desktop stores.
#[derive(Debug, Clone, PartialEq, Eq)]
pub enum KittyAdapterError {
    /// No executable candidate was found.
    KittyNotFound,
    /// An I/O operation failed; holds the operating system's message.
    Io(String),
    /// A command could not be carried out; holds the reason.
    CommandFailed(String),
}

/// The mathematical content of a [`KittyAdapterError`].
pub enum ErrorView {
    KittyNotFound,
    Io(Seq<char>),
    CommandFailed(Seq<char>),
}

impl View for KittyAdapterError {
    type V = ErrorView;

    open spec fn view(&self) -> ErrorView {
        match self {
            KittyAdapterError::KittyNotFound => ErrorView::KittyNotFound,
            KittyAdapterError::Io(m) => ErrorView::Io(m@),
            KittyAdapterError::CommandFailed(m) => ErrorView::CommandFailed(m@),
        }
    }
}

/// The message shown for an error.
pub open spec fn error_text(e: ErrorView) -> Seq<char> {
    match e {
        ErrorView::KittyNotFound =>
            "kitty executable was not found in PATH. Please install kitty or configure executable candidates."@,
        ErrorView::Io(m) => "I/O error: "@ + m,
        ErrorView::CommandFailed(m) => m,
    }
}

/// The content of a result that carries a string.
pub open spec fn string_result(r: Result<String, KittyAdapterError>) -> Result<Seq<char>, ErrorView> {
    match r {
        Ok(s) => Ok(s@),
        Err(e) => Err(e@),
    }
}

impl KittyAdapterError {
    /// The message shown for this error.
    pub fn message(&self) -> (s: String)
        ensures
            s@ == error_text(self@),
    {
        match self {
            KittyAdapterError::KittyNotFound => String::from_str(
                "kitty executable was not found in PATH. Please install kitty or configure executable candidates.",
            ),
            KittyAdapterError::Io(m) => {
                let mut out = chars_of("I/O error: ");
                push_str(&mut out, m.as_str());
                string_of(&out)
            },
            KittyAdapterError::CommandFailed(m) => m.clone(),
        }
    }
}

// ---------------------------------------------------------------------------
// Launch configuration
// ---------------------------------------------------------------------------

/// What kitty is launched with.
#[derive(Debug, Clone, PartialEq, Eq)]
pub struct KittyLaunchConfig {
    pub working_directory: Option<String>,
    pub shell: Option<String>,
    pub session_file: Option<String>,
    pub title: Option<String>,
    pub config_file: Option<String>,
    pub extra_args: Vec<String>,
}

/// The mathematical content of a [`KittyLaunchConfig`].
pub struct LaunchView {
    pub working_directory: Option<Seq<char>>,
    pub shell: Option<Seq<char>>,
    pub session_file: Option<Seq<char>>,
    pub title: Option<Seq<char>>,
    pub config_file: Option<Seq<char>>,
    pub extra_args: Seq<Seq<char>>,
}

impl View for KittyLaunchConfig {
    type V = LaunchView;

    open spec fn view(&self) -> LaunchView {
        LaunchView {
            working_directory: self.working_directory.deep_view(),
            shell: self.shell.deep_view(),
            session_file: self.session_file.deep_view(),
            title: self.title.deep_view(),
            config_file: self.config_file.deep_view(),
            extra_args: self.extra_args.deep_view(),
        }
    }
}

impl KittyLaunchConfig {
    /// A launch with nothing set.
    pub fn new() -> (c: Self)
        ensures
            c@ == (LaunchView {
                working_directory: None,
                shell: None,
                session_file: None,
                title: None,
                config_file: None,
                extra_args: Seq::empty(),
            }),
    {
        let extra_args: Vec<String> = Vec::new();
        assert(extra_args.deep_view() =~= Seq::<Seq<char>>::empty());
        KittyLaunchConfig {
            working_directory: None,
            shell: None,
            session_file: None,
            title: None,
            config_file: None,
            extra_args,
        }
    }
}

/// A flag and its value, where the value is set.
pub open spec fn flag_args(flag: Seq<char>, v: Option<Seq<char>>) -> Seq<Seq<char>> {
    match v {
        Some(x) => seq![flag, x],
        None => Seq::empty(),
    }
}

/// The command line that starts kitty at `kitty` with `c`: the executable,
/// the directory, title, configuration file and session file flags where
/// set, the further arguments, and `--` with the shell where one is set.
pub open spec fn launch_command(kitty: Seq<char>, c: LaunchView) -> Seq<Seq<char>> {
    seq![kitty] + flag_args("--directory"@, c.working_directory) + flag_args("--title"@, c.title)
        + flag_args("--config"@, c.config_file) + flag_args("--session"@, c.session_file)
        + c.extra_args + flag_args("--"@, c.shell)
}

/// The first candidate, from index `i` on, that the lookup found, with the
/// path it was found at; a candidate without a lookup result counts as not
/// found.
pub open spec fn first_found(resolved: Seq<Option<Seq<char>>>, count: int, i: int) -> Option<
    Seq<char>,
>
    decreases count - i,
{
    if i < 0 || i >= count {
        None
    } else if i < resolved.len() && resolved[i] is Some {
        resolved[i]
    } else {
        first_found(resolved, count, i + 1)
    }
}

/// The path of the first candidate found, or the error that none was.
pub open spec fn detected(candidates: Seq<Seq<char>>, resolved: Seq<Option<Seq<char>>>) -> Result<
    Seq<char>,
    ErrorView,
> {
    match first_found(resolved, candidates.len() as int, 0) {
        Some(p) => Ok(p),
        None => Err(ErrorView::KittyNotFound),
    }
}

/// The command line planned for `c`, or the error that kitty was not found.
pub open spec fn planned_command(
    candidates: Seq<Seq<char>>,
    resolved: Seq<Option<Seq<char>>>,
    c: LaunchView,
) -> Result<Seq<Seq<char>>, ErrorView> {
    match detected(candidates, resolved) {
        Ok(p) => Ok(launch_command(p, c)),
        Err(e) => Err(e),
    }
}

/// How many words an optional flag takes on a command line: its flag and
/// its value where it is set, none where it is not.
pub open spec fn option_words(v: Option<Seq<char>>) -> int {
    if v is Some {
        2
    } else {
        0
    }
}

/// A planned launch runs the executable found first; then, for each option
/// that is set, its flag and its value, in the order directory (`--directory`),
/// title (`--title`), kitty configuration file (`--config`) and session file
/// (`--session`); then every further argument, in order; then `--` and the
/// shell where one is set; and nothing else.
pub proof fn lemma_planned_command_layout(
    candidates: Seq<Seq<char>>,
    resolved: Seq<Option<Seq<char>>>,
    c: LaunchView,
    cmd: Seq<Seq<char>>,
)
    requires
        planned_command(candidates, resolved, c) == Ok::<Seq<Seq<char>>, ErrorView>(cmd),
    ensures
        detected(candidates, resolved) == Ok::<Seq<char>, ErrorView>(cmd[0]),
        ({
            let a = 1 + option_words(c.working_directory);
            let b = a + option_words(c.title);
            let d = b + option_words(c.config_file);
            let k = d + option_words(c.session_file);
            &&& cmd.len() == k + c.extra_args.len() + option_words(c.shell)
            &&& (c.working_directory matches Some(v) ==> cmd[1] == "--directory"@ && cmd[2] == v)
            &&& (c.title matches Some(v) ==> cmd[a] == "--title"@ && cmd[a + 1] == v)
            &&& (c.config_file matches Some(v) ==> cmd[b] == "--config"@ && cmd[b + 1] == v)
            &&& (c.session_file matches Some(v) ==> cmd[d] == "--session"@ && cmd[d + 1] == v)
            &&& cmd.subrange(k, k + c.extra_args.len()) == c.extra_args
            &&& (c.shell matches Some(v) ==> cmd[cmd.len() - 2] == "--"@ && cmd[cmd.len() - 1] == v)
        }),
{
    let p = detected(candidates, resolved)->Ok_0;
    let f1 = flag_args("--directory"@, c.working_directory);
    let f2 = flag_args("--title"@, c.title);
    let f3 = flag_args("--config"@, c.config_file);
    let f4 = flag_args("--session"@, c.session_file);
    let f5 = flag_args("--"@, c.shell);
    let k = (1 + f1.len() + f2.len() + f3.len() + f4.len()) as int;
    assert(cmd == seq![p] + f1 + f2 + f3 + f4 + c.extra_args + f5);
    assert(f1.len() == option_words(c.working_directory));
    assert(f2.len() == option_words(c.title));
    assert(f3.len() == option_words(c.config_file));
    assert(f4.len() == option_words(c.session_file));
    assert(f5.len() == option_words(c.shell));
    assert(cmd.subrange(k, k + c.extra_args.len()) =~= c.extra_args);
}

/// The content of a result that carries a command line.
pub open spec fn command_result(r: Result<Vec<String>, KittyAdapterError>) -> Result<
    Seq<Seq<char>>,
    ErrorView,
> {
    match r {
        Ok(v) => Ok(v.deep_view()),
        Err(e) => Err(e@),
    }
}

/// The content of the outcome of running a command.
pub open spec fn output_result(r: Result<CommandOutput, KittyAdapterError>) -> Result<
    (bool, Seq<char>),
    ErrorView,
> {
    match r {
        Ok(o) => Ok((o.success, o.stdout@)),
        Err(e) => Err(e@),
    }
}

/// The version reported: kitty must be found, the run must succeed, and
/// its output must hold a version.
pub open spec fn reported_version(
    candidates: Seq<Seq<char>>,
    resolved: Seq<Option<Seq<char>>>,
    run: Result<(bool, Seq<char>), ErrorView>,
) -> Result<Seq<char>, ErrorView> {
    match detected(candidates, resolved) {
        Err(e) => Err(e),
        Ok(_) => match run {
            Err(e) => Err(e),
            Ok((success, stdout)) => version_from(success, stdout),
        },
    }
}

/// Finds and starts kitty.
#[derive(Debug, Clone)]
pub struct KittyAdapter {
    executable_candidates: Vec<String>,
}

impl KittyAdapter {
    /// The executables tried, in order.
    pub closed spec fn candidates(&self) -> Seq<Seq<char>> {
        self.executable_candidates.deep_view()
    }

    /// An adapter that tries the given executables in order.
    pub fn with_candidates(candidates: Vec<String>) -> (a: Self)
        ensures
            a.candidates() == candidates.deep_view(),
    {
        KittyAdapter { executable_candidates: candidates }
    }

    /// The executables tried, in order.
    pub fn executable_candidates(&self) -> (v: &Vec<String>)
        ensures
            v.deep_view() == self.candidates(),
    {
        &self.executable_candidates
    }

    /// The path of the first candidate that the search of `PATH` found, where
    /// `resolved[i]` is what the search gave for candidate `i`.
    pub fn detect_executable(&self, resolved: &Vec<Option<String>>) -> (r: Result<
        String,
        KittyAdapterError,
    >)
        ensures
            string_result(r) == detected(self.candidates(), resolved.deep_view()),
    {
        let n = self.executable_candidates.len();
        let ghost dv = resolved.deep_view();
        let mut i: usize = 0;
        while i < n
            invariant
                i <= n,
                n == self.candidates().len(),
                dv == resolved.deep_view(),
                first_found(dv, n as int, 0) == first_found(dv, n as int, i as int),
            decreases n - i,
        {
            if i < resolved.len() {
                if let Some(p) = &resolved[i] {
                    assert(dv[i as int] == Some(p@));
                    return Ok(p.clone());
                }
                assert(dv[i as int] is None);
            }
            i = i + 1;
        }
        Err(KittyAdapterError::KittyNotFound)
    }

    /// The command line that launches kitty with `config`, where `resolved`
    /// holds what the search of `PATH` gave for each candidate.
    pub fn build_launch_command(
        &self,
        config: &KittyLaunchConfig,
        resolved: &Vec<Option<String>>,
    ) -> (r: Result<Vec<String>, KittyAdapterError>)
        ensures
            command_result(r) == planned_command(self.candidates(), resolved.deep_view(), config@),
    {
        let kitty_path = self.detect_executable(resolved)?;
        Ok(launch_command_for(kitty_path, config))
    }

    /// The kitty version, given the search results for the candidates and
    /// the outcome of running `kitty --version` at the path found.
    pub fn get_version(
        &self,
        resolved: &Vec<Option<String>>,
        run: &Result<CommandOutput, KittyAdapterError>,
    ) -> (r: Result<String, KittyAdapterError>)
        ensures
            string_result(r) == reported_version(
                self.candidates(),
                resolved.deep_view(),
                output_result(*run),
            ),
    {
        let _kitty_path = self.detect_executable(resolved)?;
        match run {
            Err(e) => Err(copy_error(e)),
            Ok(out) => version_from_output(out.success, out.stdout.as_str()),
        }
    }
}

impl Default for KittyAdapter {
    fn default() -> (a: Self)
        ensures
            a.candidates() == seq!["kitty"@],
    {
        let mut v: Vec<String> = Vec::new();
        v.push(String::from_str("kitty"));
        assert(v.deep_view() =~= seq!["kitty"@]);
        KittyAdapter { executable_candidates: v }
    }
}

/// Appends a flag and its value, where the value is set.
fn push_flag(cmd: &mut Vec<String>, flag: &str, v: &Option<String>)
    ensures
        final(cmd).deep_view() == old(cmd).deep_view() + flag_args(flag@, v.deep_view()),
{
    if let Some(x) = v {
        let ghost before = cmd.deep_view();
        cmd.push(String::from_str(flag));
        cmd.push(x.clone());
        assert(cmd.deep_view() =~= before + flag_args(flag@, v.deep_view()));
    } else {
        assert(cmd.deep_view() =~= old(cmd).deep_view() + flag_args(flag@, v.deep_view()));
    }
}

/// The command line that starts kitty at `kitty_path` with `config`.
fn launch_command_for(kitty_path: String, config: &KittyLaunchConfig) -> (cmd: Vec<String>)
    ensures
        cmd.deep_view() == launch_command(kitty_path@, config@),
{
    let mut command: Vec<String> = Vec::new();
    command.push(kitty_path);
    push_flag(&mut command, "--directory", &config.working_directory);
    push_flag(&mut command, "--title", &config.title);
    push_flag(&mut command, "--config", &config.config_file);
    push_flag(&mut command, "--session", &config.session_file);
    let ghost before = command.deep_view();
    let mut i: usize = 0;
    while i < config.extra_args.len()
        invariant
            i <= config.extra_args.len(),
            command.deep_view() == before + config.extra_args.deep_view().take(i as int),
        decreases config.extra_args.len() - i,
    {
        let a = config.extra_args[i].clone();
        assert(a@ == config.extra_args.deep_view()[i as int]);
        let ghost prev = command.deep_view();
        command.push(a);
        assert(command.deep_view() =~= prev.push(a@));
        assert(command.deep_view() =~= before + config.extra_args.deep_view().take(i + 1));
        i = i + 1;
    }
    assert(config.extra_args.deep_view().take(config.extra_args.len() as int)
        =~= config.extra_args.deep_view());
    push_flag(&mut command, "--", &config.shell);
    assert(command.deep_view() =~= launch_command(kitty_path@, config@));
    command
}

/// The further arguments with a leading `--` separator removed.
pub open spec fn normalized_args(args: Seq<Seq<char>>) -> Seq<Seq<char>> {
    if args.len() > 0 && args[0] == "--"@ {
        args.drop_first()
    } else {
        args
    }
}

/// The further arguments with a leading `--` separator removed.
pub fn normalize_extra_args(extra_args: &Vec<String>) -> (r: Vec<String>)
    ensures
        r.deep_view() == normalized_args(extra_args.deep_view()),
{
    let separator = String::from_str("--");
    let start: usize = if extra_args.len() > 0 && extra_args[0] == separator {
        1
    } else {
        0
    };
    let mut r: Vec<String> = Vec::new();
    let mut i: usize = start;
    while i < extra_args.len()
        invariant
            start <= i <= extra_args.len(),
            r.deep_view() == extra_args.deep_view().subrange(start as int, i as int),
        decreases extra_args.len() - i,
    {
        let a = extra_args[i].clone();
        assert(a@ == extra_args.deep_view()[i as int]);
        let ghost prev = r.deep_view();
        r.push(a);
        assert(r.deep_view() =~= prev.push(a@));
        assert(r.deep_view() =~= extra_args.deep_view().subrange(start as int, i + 1));
        i = i + 1;
    }
    assert(r.deep_view() =~= normalized_args(extra_args.deep_view()));
    r
}

// ---------------------------------------------------------------------------
// Version
// ---------------------------------------------------------------------------

/// What running a command gave: whether it succeeded, and its output.
#[derive(Debug, Clone, PartialEq, Eq)]
pub struct CommandOutput {
    pub success: bool,
    pub stdout: String,
}

/// The version reported by `kitty --version`: the first line of its output,
/// trimmed.
pub open spec fn version_line(stdout: Seq<char>) -> Seq<char> {
    trim(first_line(stdout))
}

/// The result of reading the version from a run of `kitty --version`: a
/// failure when the command failed or printed no version, else the version.
pub open spec fn version_from(success: bool, stdout: Seq<char>) -> Result<Seq<char>, ErrorView> {
    if !success {
        Err(ErrorView::CommandFailed("failed to read kitty version"@))
    } else if version_line(stdout).len() == 0 {
        Err(ErrorView::CommandFailed("kitty returned empty version output"@))
    } else {
        Ok(version_line(stdout))
    }
}

/// The version read from a run of `kitty --version`.
pub fn version_from_output(success: bool, stdout: &str) -> (r: Result<String, KittyAdapterError>)
    ensures
        string_result(r) == version_from(success, stdout@),
{
    if !success {
        return Err(KittyAdapterError::CommandFailed(String::from_str("failed to read kitty version")));
    }
    let text = chars_of(stdout);
    let line = match find_char(&text, '\n') {
        Some(i) => {
            proof {
                lemma_find_from(text@, seq!['\n'], 0);
            }
            sub_chars(&text, 0, i)
        },
        None => text,
    };
    assert(line@ =~= first_line(stdout@));
    let version = trim_chars(&line);
    if version.len() == 0 {
        return Err(
            KittyAdapterError::CommandFailed(String::from_str("kitty returned empty version output")),
        );
    }
    Ok(string_of(&version))
}

/// A copy of an error.
pub fn copy_error(e: &KittyAdapterError) -> (r: KittyAdapterError)
    ensures
        r@ == e@,
{
    match e {
        KittyAdapterError::KittyNotFound => KittyAdapterError::KittyNotFound,
        KittyAdapterError::Io(m) => KittyAdapterError::Io(m.clone()),
        KittyAdapterError::CommandFailed(m) => KittyAdapterError::CommandFailed(m.clone()),
    }
}

} // verus!
