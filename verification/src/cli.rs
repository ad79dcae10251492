//! The command line of the desktop tool: what a list of arguments asks for.
use vstd::prelude::*;

use crate::config_service::{
    default_config, lemma_config_roundtrip, parse_config, stored_config, ConfigView, DesktopConfig,
};
use crate::session_service::{
    lemma_saved_session_found, lookup, parse_sessions, storable_arg, storable_session,
    storable_text, stored_sessions, upsert, SessionTemplate, SessionView,
};
use crate::text::{avoids, chars_of, push_str, quote_free, string_of};
use crate::{normalize_extra_args, normalized_args, KittyLaunchConfig, LaunchView};

verus! {

// ---------------------------------------------------------------------------
// Scanning flags
// ---------------------------------------------------------------------------

/// What scanning the flags of a command found: each flag given with a value,
/// in order; the switches given, in order; and the arguments left after the
/// first argument that is neither (where the command takes such a tail).
pub struct FlagScan {
    pub pairs: Seq<(Seq<char>, Seq<char>)>,
    pub switches: Seq<Seq<char>>,
    pub tail: Seq<Seq<char>>,
}

/// Why scanning the flags of a command failed.
pub enum ScanFailure {
    /// A flag that takes a value came last.
    MissingValue(Seq<char>),
    /// An argument that is no flag of a command that takes no tail.
    Unknown(Seq<char>),
}

/// Scanning `args` from index `i`: a flag of `value_flags` takes the next
/// argument as its value, a flag of `switches` stands alone, and the first
/// other argument starts the tail (where `open_tail`) or is refused.
pub open spec fn scan_flags(
    args: Seq<Seq<char>>,
    i: int,
    value_flags: Seq<Seq<char>>,
    switches: Seq<Seq<char>>,
    open_tail: bool,
) -> Result<FlagScan, ScanFailure>
    decreases args.len() - i,
{
    if i < 0 || i >= args.len() {
        Ok(FlagScan { pairs: Seq::empty(), switches: Seq::empty(), tail: Seq::empty() })
    } else if value_flags.contains(args[i]) {
        if i + 1 >= args.len() {
            Err(ScanFailure::MissingValue(args[i]))
        } else {
            match scan_flags(args, i + 2, value_flags, switches, open_tail) {
                Ok(s) => Ok(
                    FlagScan {
                        pairs: seq![(args[i], args[i + 1])] + s.pairs,
                        switches: s.switches,
                        tail: s.tail,
                    },
                ),
                Err(e) => Err(e),
            }
        }
    } else if switches.contains(args[i]) {
        match scan_flags(args, i + 1, value_flags, switches, open_tail) {
            Ok(s) => Ok(
                FlagScan { pairs: s.pairs, switches: seq![args[i]] + s.switches, tail: s.tail },
            ),
            Err(e) => Err(e),
        }
    } else if open_tail {
        Ok(FlagScan { pairs: Seq::empty(), switches: Seq::empty(), tail: args.skip(i) })
    } else {
        Err(ScanFailure::Unknown(args[i]))
    }
}

/// The value given last for `flag`, if any.
pub open spec fn last_value(pairs: Seq<(Seq<char>, Seq<char>)>, flag: Seq<char>) -> Option<
    Seq<char>,
>
    decreases pairs.len(),
{
    if pairs.len() == 0 {
        None
    } else if pairs.last().0 == flag {
        Some(pairs.last().1)
    } else {
        last_value(pairs.drop_last(), flag)
    }
}

/// What scanning found, as plain values.
pub struct Scan {
    pub pairs: Vec<(String, String)>,
    pub switches: Vec<String>,
    pub tail: Vec<String>,
}

pub open spec fn pairs_view(v: Seq<(String, String)>) -> Seq<(Seq<char>, Seq<char>)> {
    v.map_values(|p: (String, String)| (p.0@, p.1@))
}

pub open spec fn scan_view(s: Scan) -> FlagScan {
    FlagScan { pairs: pairs_view(s.pairs@), switches: s.switches.deep_view(), tail: s.tail.deep_view() }
}

/// An argument is one of the given words.
fn is_one_of(arg: &String, words: &Vec<String>) -> (b: bool)
    ensures
        b == words.deep_view().contains(arg@),
{
    let mut i: usize = 0;
    while i < words.len()
        invariant
            i <= words.len(),
            forall|j: int| 0 <= j < i ==> words.deep_view()[j] != arg@,
        decreases words.len() - i,
    {
        if words[i] == *arg {
            assert(words.deep_view()[i as int] == arg@);
            return true;
        }
        i = i + 1;
    }
    false
}

/// The failure of a scan, as plain values.
pub enum ScanError {
    MissingValue(String),
    Unknown(String),
}

pub open spec fn scan_result(r: Result<Scan, ScanError>) -> Result<FlagScan, ScanFailure> {
    match r {
        Ok(s) => Ok(scan_view(s)),
        Err(ScanError::MissingValue(f)) => Err(ScanFailure::MissingValue(f@)),
        Err(ScanError::Unknown(f)) => Err(ScanFailure::Unknown(f@)),
    }
}

/// Scans the flags of `args` from `start`.
fn scan(
    args: &Vec<String>,
    start: usize,
    value_flags: &Vec<String>,
    switches: &Vec<String>,
    open_tail: bool,
) -> (r: Result<Scan, ScanError>)
    ensures
        scan_result(r) == scan_flags(
            args.deep_view(),
            start as int,
            value_flags.deep_view(),
            switches.deep_view(),
            open_tail,
        ),
{
    let ghost a = args.deep_view();
    let ghost vf = value_flags.deep_view();
    let ghost sw = switches.deep_view();
    let mut pairs: Vec<(String, String)> = Vec::new();
    let mut seen: Vec<String> = Vec::new();
    let mut i: usize = start;
    loop
        invariant
            a == args.deep_view(),
            vf == value_flags.deep_view(),
            sw == switches.deep_view(),
            start <= i,
            match scan_flags(a, start as int, vf, sw, open_tail) {
                Ok(whole) => match scan_flags(a, i as int, vf, sw, open_tail) {
                    Ok(rest) => whole == (FlagScan {
                        pairs: pairs_view(pairs@) + rest.pairs,
                        switches: seen.deep_view() + rest.switches,
                        tail: rest.tail,
                    }),
                    Err(_) => false,
                },
                Err(e) => scan_flags(a, i as int, vf, sw, open_tail) == Err::<FlagScan, ScanFailure>(e),
            },
        decreases args.len() - i,
    {
        if i >= args.len() {
            let s = Scan { pairs, switches: seen, tail: Vec::new() };
            assert(s.tail.deep_view() =~= Seq::<Seq<char>>::empty());
            assert(pairs_view(s.pairs@) + Seq::empty() =~= pairs_view(s.pairs@));
            assert(s.switches.deep_view() + Seq::empty() =~= s.switches.deep_view());
            return Ok(s);
        }
        let arg = &args[i];
        assert(a[i as int] == arg@);
        if is_one_of(arg, value_flags) {
            if i + 1 >= args.len() {
                return Err(ScanError::MissingValue(arg.clone()));
            }
            let ghost before = pairs_view(pairs@);
            pairs.push((arg.clone(), args[i + 1].clone()));
            assert(a[i + 1] == args[i + 1 as int]@);
            assert(pairs_view(pairs@) =~= before.push((a[i as int], a[i + 1])));
            proof {
                match scan_flags(a, i + 2, vf, sw, open_tail) {
                    Ok(rest) => {
                        assert(before + (seq![(a[i as int], a[i + 1])] + rest.pairs) =~= pairs_view(
                            pairs@,
                        ) + rest.pairs);
                    },
                    Err(_) => {},
                }
            }
            i = i + 2;
        } else if is_one_of(arg, switches) {
            let ghost before = seen.deep_view();
            seen.push(arg.clone());
            assert(seen.deep_view() =~= before.push(a[i as int]));
            proof {
                match scan_flags(a, i + 1, vf, sw, open_tail) {
                    Ok(rest) => {
                        assert(before + (seq![a[i as int]] + rest.switches) =~= seen.deep_view()
                            + rest.switches);
                    },
                    Err(_) => {},
                }
            }
            i = i + 1;
        } else if open_tail {
            let mut tail: Vec<String> = Vec::new();
            let mut k: usize = i;
            while k < args.len()
                invariant
                    i <= k <= args.len(),
                    a == args.deep_view(),
                    tail.deep_view() == a.subrange(i as int, k as int),
                decreases args.len() - k,
            {
                let ghost before = tail.deep_view();
                let x = args[k].clone();
                assert(x@ == a[k as int]);
                tail.push(x);
                assert(tail.deep_view() =~= before.push(a[k as int]));
                assert(tail.deep_view() =~= a.subrange(i as int, k + 1));
                k = k + 1;
            }
            assert(a.subrange(i as int, args.len() as int) =~= a.skip(i as int));
            let s = Scan { pairs, switches: seen, tail };
            assert(pairs_view(s.pairs@) + Seq::empty() =~= pairs_view(s.pairs@));
            assert(s.switches.deep_view() + Seq::empty() =~= s.switches.deep_view());
            return Ok(s);
        } else {
            return Err(ScanError::Unknown(arg.clone()));
        }
    }
}

/// The value given last for `flag`.
fn last_value_of(pairs: &Vec<(String, String)>, flag: &str) -> (r: Option<String>)
    ensures
        r.deep_view() == last_value(pairs_view(pairs@), flag@),
{
    let ghost pv = pairs_view(pairs@);
    let mut i: usize = pairs.len();
    assert(pv.take(i as int) =~= pv);
    let key = String::from_str(flag);
    while i > 0
        invariant
            i <= pairs.len(),
            pv == pairs_view(pairs@),
            key@ == flag@,
            last_value(pv.take(i as int), flag@) == last_value(pv, flag@),
        decreases i,
    {
        let p = &pairs[i - 1];
        assert(pv.take(i as int).last() == (p.0@, p.1@));
        if p.0 == key {
            return Some(p.1.clone());
        }
        assert(pv.take(i as int).drop_last() =~= pv.take(i - 1));
        i = i - 1;
    }
    None
}

// ---------------------------------------------------------------------------
// Commands
// ---------------------------------------------------------------------------

/// Where the configuration is stored unless a path is given.
pub open spec fn default_config_path_text() -> Seq<char> {
    ".kitty_desktop/config.json"@
}

/// Where the sessions are stored unless a path is given.
pub open spec fn default_session_path_text() -> Seq<char> {
    ".kitty_desktop/sessions.json"@
}

/// Where the configuration is stored unless a path is given.
pub fn default_config_path() -> (p: String)
    ensures
        p@ == default_config_path_text(),
{
    String::from_str(".kitty_desktop/config.json")
}

/// Where the sessions are stored unless a path is given.
pub fn default_session_path() -> (p: String)
    ensures
        p@ == default_session_path_text(),
{
    String::from_str(".kitty_desktop/sessions.json")
}

/// What the command line asks for.
#[derive(Debug)]
pub enum CliCommand {
    /// `version`: print the kitty version.
    Version,
    /// `doctor`: print the checks of the installation and the stores.
    Doctor,
    /// `launch`: start kitty with this configuration; `true` for a dry run.
    Launch(KittyLaunchConfig, bool),
    /// `config show`: print the configuration stored at this path.
    ConfigShow(String),
    /// `config set`: store this configuration at this path.
    ConfigSet(String, DesktopConfig),
    /// `session list`: print the sessions stored at this path.
    SessionList(String),
    /// `session save`: save this session in the store at this path.
    SessionSave(String, SessionTemplate),
    /// `shell run`: run the interactive shell over these two stores.
    ShellRun(String, String),
}

/// The mathematical content of a [`CliCommand`].
pub enum CliCommandView {
    Version,
    Doctor,
    Launch(LaunchView, bool),
    ConfigShow(Seq<char>),
    ConfigSet(Seq<char>, ConfigView),
    SessionList(Seq<char>),
    SessionSave(Seq<char>, SessionView),
    ShellRun(Seq<char>, Seq<char>),
}

impl View for CliCommand {
    type V = CliCommandView;

    open spec fn view(&self) -> CliCommandView {
        match self {
            CliCommand::Version => CliCommandView::Version,
            CliCommand::Doctor => CliCommandView::Doctor,
            CliCommand::Launch(c, d) => CliCommandView::Launch(c@, *d),
            CliCommand::ConfigShow(p) => CliCommandView::ConfigShow(p@),
            CliCommand::ConfigSet(p, c) => CliCommandView::ConfigSet(p@, c@),
            CliCommand::SessionList(p) => CliCommandView::SessionList(p@),
            CliCommand::SessionSave(p, t) => CliCommandView::SessionSave(p@, t@),
            CliCommand::ShellRun(c, s) => CliCommandView::ShellRun(c@, s@),
        }
    }
}

/// Why the command line was refused; the tool then exits with status 2.
#[derive(Debug, Clone, PartialEq, Eq)]
pub enum CliError {
    /// No or an unknown command: the usage is printed.
    Usage,
    /// A flag that takes a value came last.
    MissingValue(String),
    /// An unknown flag of the named command group (`config`, `session`,
    /// `shell`).
    UnknownFlag(String, String),
    /// `session save` without `--name`.
    MissingName,
}

/// The mathematical content of a [`CliError`].
pub enum CliErrorView {
    Usage,
    MissingValue(Seq<char>),
    UnknownFlag(Seq<char>, Seq<char>),
    MissingName,
}

impl View for CliError {
    type V = CliErrorView;

    open spec fn view(&self) -> CliErrorView {
        match self {
            CliError::Usage => CliErrorView::Usage,
            CliError::MissingValue(f) => CliErrorView::MissingValue(f@),
            CliError::UnknownFlag(g, f) => CliErrorView::UnknownFlag(g@, f@),
            CliError::MissingName => CliErrorView::MissingName,
        }
    }
}

/// The text printed for a refused command line.
pub open spec fn cli_error_text(e: CliErrorView) -> Seq<char> {
    match e {
        CliErrorView::Usage => usage_text(),
        CliErrorView::MissingValue(f) => "missing value for "@ + f,
        CliErrorView::UnknownFlag(g, f) => "unknown "@ + g + " flag: "@ + f,
        CliErrorView::MissingName => "missing required --name"@,
    }
}

/// How the tool is used.
pub open spec fn usage_text() -> Seq<char> {
    "kitty_desktop core-adapter CLI\n\nUsage:\n  kitty_desktop version\n  kitty_desktop launch [--directory DIR] [--shell SHELL] [--session FILE] [--title TITLE] [--config FILE] [--dry-run] [-- ...extra args]\n  kitty_desktop config show [--config-path FILE]\n  kitty_desktop config set [--config-path FILE] [--directory DIR] [--shell SHELL] [--title TITLE] [--kitty-config FILE]\n  kitty_desktop session list [--session-path FILE]\n  kitty_desktop session save --name NAME [--session-path FILE] [--directory DIR] [--shell SHELL] [--title TITLE] [-- ...extra args]\n  kitty_desktop shell run [--config-path FILE] [--session-path FILE]"@
}

impl CliError {
    /// The text printed for this refusal.
    pub fn message(&self) -> (s: String)
        ensures
            s@ == cli_error_text(self@),
    {
        match self {
            CliError::Usage => String::from_str(
                "kitty_desktop core-adapter CLI\n\nUsage:\n  kitty_desktop version\n  kitty_desktop launch [--directory DIR] [--shell SHELL] [--session FILE] [--title TITLE] [--config FILE] [--dry-run] [-- ...extra args]\n  kitty_desktop config show [--config-path FILE]\n  kitty_desktop config set [--config-path FILE] [--directory DIR] [--shell SHELL] [--title TITLE] [--kitty-config FILE]\n  kitty_desktop session list [--session-path FILE]\n  kitty_desktop session save --name NAME [--session-path FILE] [--directory DIR] [--shell SHELL] [--title TITLE] [-- ...extra args]\n  kitty_desktop shell run [--config-path FILE] [--session-path FILE]",
            ),
            CliError::MissingValue(f) => {
                let mut out = chars_of("missing value for ");
                push_str(&mut out, f.as_str());
                string_of(&out)
            },
            CliError::UnknownFlag(g, f) => {
                let mut out = chars_of("unknown ");
                push_str(&mut out, g.as_str());
                push_str(&mut out, " flag: ");
                push_str(&mut out, f.as_str());
                string_of(&out)
            },
            CliError::MissingName => String::from_str("missing required --name"),
        }
    }
}

/// A scan failure as the refusal of a command of the group `group`.
pub open spec fn scan_refusal(f: ScanFailure, group: Seq<char>) -> CliErrorView {
    match f {
        ScanFailure::MissingValue(flag) => CliErrorView::MissingValue(flag),
        ScanFailure::Unknown(flag) => CliErrorView::UnknownFlag(group, flag),
    }
}

/// The value, or `fallback` where none was given.
pub open spec fn or_else(v: Option<Seq<char>>, fallback: Seq<char>) -> Seq<char> {
    match v {
        Some(x) => x,
        None => fallback,
    }
}

/// The flags of `launch` that take a value.
pub open spec fn launch_flags() -> Seq<Seq<char>> {
    seq!["--directory"@, "--shell"@, "--session"@, "--title"@, "--config"@]
}

/// The flags of `config set` that take a value.
pub open spec fn config_set_flags() -> Seq<Seq<char>> {
    seq!["--config-path"@, "--directory"@, "--shell"@, "--title"@, "--kitty-config"@]
}

/// The flags of `session save` that take a value.
pub open spec fn session_save_flags() -> Seq<Seq<char>> {
    seq!["--session-path"@, "--name"@, "--directory"@, "--shell"@, "--title"@]
}

/// The flags of `shell run` that take a value.
pub open spec fn shell_run_flags() -> Seq<Seq<char>> {
    seq!["--config-path"@, "--session-path"@]
}

/// What a list of arguments (the program's name first) asks for: the last
/// value given for a flag counts, and after `launch` or `session save` the
/// first argument that is no flag starts the further arguments, from which a
/// leading `--` is removed.
pub open spec fn cli_command(args: Seq<Seq<char>>) -> Result<CliCommandView, CliErrorView> {
    if args.len() < 2 {
        Err(CliErrorView::Usage)
    } else if args[1] == "version"@ {
        Ok(CliCommandView::Version)
    } else if args[1] == "doctor"@ {
        Ok(CliCommandView::Doctor)
    } else if args[1] == "launch"@ {
        match scan_flags(args, 2, launch_flags(), seq!["--dry-run"@], true) {
            Err(f) => Err(scan_refusal(f, "launch"@)),
            Ok(s) => Ok(
                CliCommandView::Launch(
                    LaunchView {
                        working_directory: last_value(s.pairs, "--directory"@),
                        shell: last_value(s.pairs, "--shell"@),
                        session_file: last_value(s.pairs, "--session"@),
                        title: last_value(s.pairs, "--title"@),
                        config_file: last_value(s.pairs, "--config"@),
                        extra_args: normalized_args(s.tail),
                    },
                    s.switches.len() > 0,
                ),
            ),
        }
    } else if args[1] == "config"@ {
        if args.len() < 3 {
            Err(CliErrorView::Usage)
        } else if args[2] == "show"@ {
            match scan_flags(args, 3, seq!["--config-path"@], Seq::empty(), false) {
                Err(f) => Err(scan_refusal(f, "config"@)),
                Ok(s) => Ok(
                    CliCommandView::ConfigShow(
                        or_else(last_value(s.pairs, "--config-path"@), default_config_path_text()),
                    ),
                ),
            }
        } else if args[2] == "set"@ {
            match scan_flags(args, 3, config_set_flags(), Seq::empty(), false) {
                Err(f) => Err(scan_refusal(f, "config"@)),
                Ok(s) => Ok(
                    CliCommandView::ConfigSet(
                        or_else(last_value(s.pairs, "--config-path"@), default_config_path_text()),
                        ConfigView {
                            default_directory: or_else(
                                last_value(s.pairs, "--directory"@),
                                default_config().default_directory,
                            ),
                            default_shell: last_value(s.pairs, "--shell"@),
                            default_title: or_else(
                                last_value(s.pairs, "--title"@),
                                default_config().default_title,
                            ),
                            kitty_config_file: last_value(s.pairs, "--kitty-config"@),
                        },
                    ),
                ),
            }
        } else {
            Err(CliErrorView::Usage)
        }
    } else if args[1] == "session"@ {
        if args.len() < 3 {
            Err(CliErrorView::Usage)
        } else if args[2] == "list"@ {
            match scan_flags(args, 3, seq!["--session-path"@], Seq::empty(), false) {
                Err(f) => Err(scan_refusal(f, "session"@)),
                Ok(s) => Ok(
                    CliCommandView::SessionList(
                        or_else(last_value(s.pairs, "--session-path"@), default_session_path_text()),
                    ),
                ),
            }
        } else if args[2] == "save"@ {
            match scan_flags(args, 3, session_save_flags(), Seq::empty(), true) {
                Err(f) => Err(scan_refusal(f, "session"@)),
                Ok(s) => match last_value(s.pairs, "--name"@) {
                    None => Err(CliErrorView::MissingName),
                    Some(name) => Ok(
                        CliCommandView::SessionSave(
                            or_else(
                                last_value(s.pairs, "--session-path"@),
                                default_session_path_text(),
                            ),
                            SessionView {
                                name,
                                directory: or_else(last_value(s.pairs, "--directory"@), "."@),
                                shell: last_value(s.pairs, "--shell"@),
                                title: last_value(s.pairs, "--title"@),
                                extra_args: normalized_args(s.tail),
                            },
                        ),
                    ),
                },
            }
        } else {
            Err(CliErrorView::Usage)
        }
    } else if args[1] == "shell"@ {
        if args.len() < 3 || args[2] != "run"@ {
            Err(CliErrorView::Usage)
        } else {
            match scan_flags(args, 3, shell_run_flags(), Seq::empty(), false) {
                Err(f) => Err(scan_refusal(f, "shell"@)),
                Ok(s) => Ok(
                    CliCommandView::ShellRun(
                        or_else(last_value(s.pairs, "--config-path"@), default_config_path_text()),
                        or_else(last_value(s.pairs, "--session-path"@), default_session_path_text()),
                    ),
                ),
            }
        }
    } else {
        Err(CliErrorView::Usage)
    }
}

/// Where every value given for `flag` has a property, so has the one given
/// last.
proof fn lemma_last_value_keeps(
    pairs: Seq<(Seq<char>, Seq<char>)>,
    flag: Seq<char>,
    good: spec_fn(Seq<char>) -> bool,
)
    requires
        forall|i: int| 0 <= i < pairs.len() && pairs[i].0 == flag ==> good(#[trigger] pairs[i].1),
    ensures
        last_value(pairs, flag) matches Some(v) ==> good(v),
    decreases pairs.len(),
{
    if pairs.len() > 0 && pairs.last().0 != flag {
        let rest = pairs.drop_last();
        assert forall|i: int| 0 <= i < rest.len() && rest[i].0 == flag implies good(
            #[trigger] rest[i].1,
        ) by {
            assert(rest[i] == pairs[i]);
        }
        lemma_last_value_keeps(rest, flag, good);
    }
}

/// The words of flags given with values, each flag followed by its value.
pub open spec fn flag_words(pairs: Seq<(Seq<char>, Seq<char>)>) -> Seq<Seq<char>>
    decreases pairs.len(),
{
    if pairs.len() == 0 {
        Seq::empty()
    } else {
        seq![pairs[0].0, pairs[0].1] + flag_words(pairs.drop_first())
    }
}

/// Flags that take a value, each given with one, scan as those flags and
/// values in order; what follows them is the tail, where the command takes
/// one and it does not start with a flag.
proof fn lemma_scan_flag_words(
    head: Seq<Seq<char>>,
    pairs: Seq<(Seq<char>, Seq<char>)>,
    tail: Seq<Seq<char>>,
    value_flags: Seq<Seq<char>>,
    switches: Seq<Seq<char>>,
    open_tail: bool,
)
    requires
        forall|k: int| 0 <= k < pairs.len() ==> value_flags.contains(#[trigger] pairs[k].0),
        tail.len() == 0 || (open_tail && !value_flags.contains(tail[0]) && !switches.contains(
            tail[0],
        )),
    ensures
        scan_flags(head + flag_words(pairs) + tail, head.len() as int, value_flags, switches, open_tail)
            == Ok::<FlagScan, ScanFailure>(
            FlagScan { pairs, switches: Seq::empty(), tail },
        ),
    decreases pairs.len(),
{
    let args = head + flag_words(pairs) + tail;
    let i = head.len() as int;
    if pairs.len() == 0 {
        assert(args =~= head + tail);
        assert(pairs =~= Seq::<(Seq<char>, Seq<char>)>::empty());
        if tail.len() == 0 {
            assert(tail =~= Seq::<Seq<char>>::empty());
        } else {
            assert(args[i] == tail[0]);
            assert(args.skip(i) =~= tail);
        }
    } else {
        let head2 = head + seq![pairs[0].0, pairs[0].1];
        let rest = pairs.drop_first();
        assert forall|k: int| 0 <= k < rest.len() implies value_flags.contains(
            #[trigger] rest[k].0,
        ) by {
            assert(rest[k] == pairs[k + 1]);
        }
        lemma_scan_flag_words(head2, rest, tail, value_flags, switches, open_tail);
        assert(head2 + flag_words(rest) + tail =~= args);
        assert(args[i] == pairs[0].0);
        assert(args[i + 1] == pairs[0].1);
        assert(seq![(args[i], args[i + 1])] + rest =~= pairs);
    }
}

/// `launch`, then `--dry-run` or not, then flags of its own each given with
/// a value, then further arguments that do not start with one of its flags
/// or `--dry-run`, asks to launch kitty with the value given last for
/// `--directory` as the working directory, for `--shell` as the shell, for
/// `--session` as the session file, for `--title` as the title and for
/// `--config` as the kitty configuration file (each unset where its flag is
/// not given), with the further arguments without a leading `--`, as a dry
/// run exactly when `--dry-run` was given.
pub proof fn lemma_launch_command_line(
    program: Seq<char>,
    dry_run: bool,
    pairs: Seq<(Seq<char>, Seq<char>)>,
    tail: Seq<Seq<char>>,
)
    requires
        forall|k: int| 0 <= k < pairs.len() ==> launch_flags().contains(#[trigger] pairs[k].0),
        tail.len() == 0 || (!launch_flags().contains(tail[0]) && tail[0] != "--dry-run"@),
    ensures
        ({
            let head = if dry_run {
                seq![program, "launch"@, "--dry-run"@]
            } else {
                seq![program, "launch"@]
            };
            cli_command(head + flag_words(pairs) + tail) == Ok::<CliCommandView, CliErrorView>(
                CliCommandView::Launch(
                    LaunchView {
                        working_directory: last_value(pairs, "--directory"@),
                        shell: last_value(pairs, "--shell"@),
                        session_file: last_value(pairs, "--session"@),
                        title: last_value(pairs, "--title"@),
                        config_file: last_value(pairs, "--config"@),
                        extra_args: normalized_args(tail),
                    },
                    dry_run,
                ),
            )
        }),
{
    reveal_strlit("version");
    reveal_strlit("doctor");
    reveal_strlit("launch");
    reveal_strlit("--dry-run");
    reveal_strlit("--directory");
    reveal_strlit("--shell");
    reveal_strlit("--session");
    reveal_strlit("--title");
    reveal_strlit("--config");
    let switches = seq!["--dry-run"@];
    let head = if dry_run {
        seq![program, "launch"@, "--dry-run"@]
    } else {
        seq![program, "launch"@]
    };
    let args = head + flag_words(pairs) + tail;
    // `--dry-run` is no flag that takes a value.
    assert(!launch_flags().contains("--dry-run"@)) by {
        assert forall|k: int| 0 <= k < launch_flags().len() implies launch_flags()[k]
            != "--dry-run"@ by {
            assert(launch_flags()[k][3] != "--dry-run"@[3]);
        }
    }
    if tail.len() > 0 {
        assert(!switches.contains(tail[0])) by {
            assert forall|k: int| 0 <= k < switches.len() implies switches[k] != tail[0] by {}
        }
    }
    lemma_scan_flag_words(head, pairs, tail, launch_flags(), switches, true);
    assert(args[1] == "launch"@);
    assert(args[1][0] != "version"@[0] && args[1][0] != "doctor"@[0]);
    if dry_run {
        assert(args[2] == "--dry-run"@);
        assert(switches.contains(args[2])) by {
            assert(switches[0] == args[2]);
        }
        assert(seq![args[2]] + Seq::<Seq<char>>::empty() =~= seq!["--dry-run"@]);
    }
}

/// The configuration that `config set` stores: the defaults, with the value
/// given last for each setting's flag in its place.
pub open spec fn config_set_value(pairs: Seq<(Seq<char>, Seq<char>)>) -> ConfigView {
    ConfigView {
        default_directory: or_else(
            last_value(pairs, "--directory"@),
            default_config().default_directory,
        ),
        default_shell: last_value(pairs, "--shell"@),
        default_title: or_else(last_value(pairs, "--title"@), default_config().default_title),
        kitty_config_file: last_value(pairs, "--kitty-config"@),
    }
}

/// `config set` followed by flags of its own, each given with a value,
/// stores the defaults with the settings given on the command line in place
/// (the value given last for a flag counts, and settings not named are
/// reset to their defaults) at the path given last, or the default path; and
/// reading that store back gives exactly this configuration, whenever no
/// value given for a setting holds a `"`.
pub proof fn lemma_config_set_then_load(program: Seq<char>, pairs: Seq<(Seq<char>, Seq<char>)>)
    requires
        forall|k: int| 0 <= k < pairs.len() ==> config_set_flags().contains(#[trigger] pairs[k].0),
        forall|k: int|
            0 <= k < pairs.len() && pairs[k].0 != "--config-path"@ ==> quote_free(
                #[trigger] pairs[k].1,
            ),
    ensures
        ({
            let args = seq![program, "config"@, "set"@] + flag_words(pairs);
            let c = config_set_value(pairs);
            &&& cli_command(args) == Ok::<CliCommandView, CliErrorView>(
                CliCommandView::ConfigSet(
                    or_else(last_value(pairs, "--config-path"@), default_config_path_text()),
                    c,
                ),
            )
            &&& parse_config(stored_config(c)) == c
        }),
{
    reveal_strlit("version");
    reveal_strlit("doctor");
    reveal_strlit("launch");
    reveal_strlit("config");
    reveal_strlit("show");
    reveal_strlit("set");
    reveal_strlit(".");
    reveal_strlit("kitty_desktop");
    reveal_strlit("--config-path");
    reveal_strlit("--directory");
    reveal_strlit("--shell");
    reveal_strlit("--title");
    reveal_strlit("--kitty-config");
    let head = seq![program, "config"@, "set"@];
    let args = head + flag_words(pairs);
    lemma_scan_flag_words(head, pairs, Seq::empty(), config_set_flags(), Seq::empty(), false);
    assert(head + flag_words(pairs) + Seq::<Seq<char>>::empty() =~= args);
    // The command is `config set`: its first words differ from the others'.
    assert(args[1] == "config"@ && args[2] == "set"@);
    assert(args[1][0] != "version"@[0] && args[1][0] != "doctor"@[0] && args[1][0]
        != "launch"@[0]);
    assert(args[2].len() != "show"@.len());
    // Each setting's value holds no `"`, given or not.
    let good = |v: Seq<char>| quote_free(v);
    assert("--directory"@[2] != "--config-path"@[2]);
    assert("--shell"@[2] != "--config-path"@[2]);
    assert("--title"@[2] != "--config-path"@[2]);
    assert("--kitty-config"@[2] != "--config-path"@[2]);
    lemma_last_value_keeps(pairs, "--directory"@, good);
    lemma_last_value_keeps(pairs, "--shell"@, good);
    lemma_last_value_keeps(pairs, "--title"@, good);
    lemma_last_value_keeps(pairs, "--kitty-config"@, good);
    assert(quote_free("."@));
    assert(quote_free("kitty_desktop"@));
    lemma_config_roundtrip(config_set_value(pairs));
}

/// The session that `session save` stores: the name given last, the
/// directory given last or `.`, the shell and title given last if any, and
/// the further arguments without a leading `--`.
pub open spec fn session_save_value(
    pairs: Seq<(Seq<char>, Seq<char>)>,
    tail: Seq<Seq<char>>,
) -> SessionView {
    SessionView {
        name: last_value(pairs, "--name"@)->Some_0,
        directory: or_else(last_value(pairs, "--directory"@), "."@),
        shell: last_value(pairs, "--shell"@),
        title: last_value(pairs, "--title"@),
        extra_args: normalized_args(tail),
    }
}

/// `session save` followed by flags of its own, each given with a value, a
/// `--name` among them, and then further arguments that do not start with
/// one of its flags, saves the session made of the values given last (see
/// `session_save_value`) into the store at the path given last, or the
/// default path. Saving it over a store that lists `before` and listing
/// the store again gives `before` with the first session of that name
/// replaced by it, or with it added at the end, every other session kept in
/// order; and looking its name up finds it. This holds whenever no string
/// saved holds a `"` or `}`, and no further argument holds a `,` or `]`.
pub proof fn lemma_session_save_then_list(
    program: Seq<char>,
    pairs: Seq<(Seq<char>, Seq<char>)>,
    tail: Seq<Seq<char>>,
    before: Seq<SessionView>,
)
    requires
        forall|k: int| 0 <= k < pairs.len() ==> session_save_flags().contains(#[trigger] pairs[k].0),
        last_value(pairs, "--name"@) is Some,
        tail.len() == 0 || !session_save_flags().contains(tail[0]),
        forall|k: int|
            0 <= k < pairs.len() && pairs[k].0 != "--session-path"@ ==> storable_text(
                #[trigger] pairs[k].1,
            ),
        forall|k: int| 0 <= k < tail.len() ==> storable_arg(#[trigger] tail[k]),
        forall|i: int| 0 <= i < before.len() ==> storable_session(#[trigger] before[i]),
    ensures
        ({
            let args = seq![program, "session"@, "save"@] + flag_words(pairs) + tail;
            let t = session_save_value(pairs, tail);
            let after = upsert(before, t);
            &&& cli_command(args) == Ok::<CliCommandView, CliErrorView>(
                CliCommandView::SessionSave(
                    or_else(last_value(pairs, "--session-path"@), default_session_path_text()),
                    t,
                ),
            )
            &&& parse_sessions(stored_sessions(after)) == after
            &&& lookup(parse_sessions(stored_sessions(after)), t.name) == Some(t)
        }),
{
    reveal_strlit("version");
    reveal_strlit("doctor");
    reveal_strlit("launch");
    reveal_strlit("config");
    reveal_strlit("session");
    reveal_strlit("list");
    reveal_strlit("save");
    reveal_strlit(".");
    reveal_strlit("--session-path");
    reveal_strlit("--name");
    reveal_strlit("--directory");
    reveal_strlit("--shell");
    reveal_strlit("--title");
    let head = seq![program, "session"@, "save"@];
    let args = head + flag_words(pairs) + tail;
    lemma_scan_flag_words(head, pairs, tail, session_save_flags(), Seq::empty(), true);
    // The command is `session save`: its first words differ from the others'.
    assert(args[1] == "session"@ && args[2] == "save"@);
    assert(args[1][0] != "version"@[0] && args[1][0] != "doctor"@[0] && args[1][0]
        != "launch"@[0] && args[1][0] != "config"@[0]);
    assert(args[2][0] != "list"@[0]);
    // Each string saved is one the store keeps apart.
    let good = |v: Seq<char>| storable_text(v);
    assert("--name"@[2] != "--session-path"@[2]);
    assert("--directory"@[2] != "--session-path"@[2]);
    assert("--shell"@[3] != "--session-path"@[3]);
    assert("--title"@[2] != "--session-path"@[2]);
    lemma_last_value_keeps(pairs, "--name"@, good);
    lemma_last_value_keeps(pairs, "--directory"@, good);
    lemma_last_value_keeps(pairs, "--shell"@, good);
    lemma_last_value_keeps(pairs, "--title"@, good);
    assert(storable_text("."@)) by {
        assert(quote_free("."@));
        assert(avoids("."@, '}'));
    }
    let t = session_save_value(pairs, tail);
    assert forall|k: int| 0 <= k < t.extra_args.len() implies storable_arg(
        #[trigger] t.extra_args[k],
    ) by {
        if tail.len() > 0 && tail[0] == "--"@ {
            assert(t.extra_args[k] == tail[k + 1]);
        }
    }
    assert(storable_session(t));
    lemma_saved_session_found(before, t);
}

/// The content of a parse of the command line.
pub open spec fn cli_result(r: Result<CliCommand, CliError>) -> Result<CliCommandView, CliErrorView> {
    match r {
        Ok(c) => Ok(c@),
        Err(e) => Err(e@),
    }
}

/// A list of words as `String`s.
fn words(ws: &[&str]) -> (v: Vec<String>)
    ensures
        v.deep_view() == ws@.map_values(|w: &str| w@),
{
    let mut v: Vec<String> = Vec::new();
    let mut i: usize = 0;
    while i < ws.len()
        invariant
            i <= ws.len(),
            v.deep_view() == ws@.map_values(|w: &str| w@).take(i as int),
        decreases ws.len() - i,
    {
        let ghost before = v.deep_view();
        v.push(String::from_str(ws[i]));
        assert(v.deep_view() =~= before.push(ws@[i as int]@));
        assert(v.deep_view() =~= ws@.map_values(|w: &str| w@).take(i + 1));
        i = i + 1;
    }
    assert(ws@.map_values(|w: &str| w@).take(ws.len() as int) =~= ws@.map_values(|w: &str| w@));
    v
}

/// A scan failure as the refusal of a command of the group `group`.
fn refusal(e: ScanError, group: &str) -> (r: CliError)
    ensures
        r@ == scan_refusal(
            match e {
                ScanError::MissingValue(f) => ScanFailure::MissingValue(f@),
                ScanError::Unknown(f) => ScanFailure::Unknown(f@),
            },
            group@,
        ),
{
    match e {
        ScanError::MissingValue(f) => CliError::MissingValue(f),
        ScanError::Unknown(f) => CliError::UnknownFlag(String::from_str(group), f),
    }
}

/// The value, or `fallback` where none was given.
fn value_or(v: Option<String>, fallback: String) -> (r: String)
    ensures
        r@ == or_else(v.deep_view(), fallback@),
{
    match v {
        Some(x) => x,
        None => fallback,
    }
}

/// The argument at `i` is `word`.
fn arg_is(args: &Vec<String>, i: usize, word: &str) -> (b: bool)
    requires
        i < args.len(),
    ensures
        b == (args.deep_view()[i as int] == word@),
{
    let w = String::from_str(word);
    args[i] == w
}

/// What a list of arguments (the program's name first) asks for.
pub fn parse_cli(args: &Vec<String>) -> (r: Result<CliCommand, CliError>)
    ensures
        cli_result(r) == cli_command(args.deep_view()),
{
    if args.len() < 2 {
        return Err(CliError::Usage);
    }
    if arg_is(args, 1, "version") {
        return Ok(CliCommand::Version);
    }
    if arg_is(args, 1, "doctor") {
        return Ok(CliCommand::Doctor);
    }
    if arg_is(args, 1, "launch") {
        let flags = words(&["--directory", "--shell", "--session", "--title", "--config"]);
        let switches = words(&["--dry-run"]);
        proof {
            assert(flags.deep_view() =~= launch_flags());
            assert(switches.deep_view() =~= seq!["--dry-run"@]);
        }
        let s = match scan(args, 2, &flags, &switches, true) {
            Err(e) => {
                return Err(refusal(e, "launch"));
            },
            Ok(s) => s,
        };
        let mut config = KittyLaunchConfig::new();
        config.working_directory = last_value_of(&s.pairs, "--directory");
        config.shell = last_value_of(&s.pairs, "--shell");
        config.session_file = last_value_of(&s.pairs, "--session");
        config.title = last_value_of(&s.pairs, "--title");
        config.config_file = last_value_of(&s.pairs, "--config");
        config.extra_args = normalize_extra_args(&s.tail);
        let dry_run = s.switches.len() > 0;
        return Ok(CliCommand::Launch(config, dry_run));
    }
    if arg_is(args, 1, "config") {
        if args.len() < 3 {
            return Err(CliError::Usage);
        }
        if arg_is(args, 2, "show") {
            let flags = words(&["--config-path"]);
            let switches: Vec<String> = Vec::new();
            proof {
                assert(flags.deep_view() =~= seq!["--config-path"@]);
                assert(switches.deep_view() =~= Seq::<Seq<char>>::empty());
            }
            let s = match scan(args, 3, &flags, &switches, false) {
                Err(e) => {
                    return Err(refusal(e, "config"));
                },
                Ok(s) => s,
            };
            let path = value_or(last_value_of(&s.pairs, "--config-path"), default_config_path());
            return Ok(CliCommand::ConfigShow(path));
        }
        if arg_is(args, 2, "set") {
            let flags = words(
                &["--config-path", "--directory", "--shell", "--title", "--kitty-config"],
            );
            let switches: Vec<String> = Vec::new();
            proof {
                assert(flags.deep_view() =~= config_set_flags());
                assert(switches.deep_view() =~= Seq::<Seq<char>>::empty());
            }
            let s = match scan(args, 3, &flags, &switches, false) {
                Err(e) => {
                    return Err(refusal(e, "config"));
                },
                Ok(s) => s,
            };
            let path = value_or(last_value_of(&s.pairs, "--config-path"), default_config_path());
            let defaults = DesktopConfig::default();
            let config = DesktopConfig {
                default_directory: value_or(
                    last_value_of(&s.pairs, "--directory"),
                    defaults.default_directory,
                ),
                default_shell: last_value_of(&s.pairs, "--shell"),
                default_title: value_or(last_value_of(&s.pairs, "--title"), defaults.default_title),
                kitty_config_file: last_value_of(&s.pairs, "--kitty-config"),
            };
            return Ok(CliCommand::ConfigSet(path, config));
        }
        return Err(CliError::Usage);
    }
    if arg_is(args, 1, "session") {
        if args.len() < 3 {
            return Err(CliError::Usage);
        }
        if arg_is(args, 2, "list") {
            let flags = words(&["--session-path"]);
            let switches: Vec<String> = Vec::new();
            proof {
                assert(flags.deep_view() =~= seq!["--session-path"@]);
                assert(switches.deep_view() =~= Seq::<Seq<char>>::empty());
            }
            let s = match scan(args, 3, &flags, &switches, false) {
                Err(e) => {
                    return Err(refusal(e, "session"));
                },
                Ok(s) => s,
            };
            let path = value_or(last_value_of(&s.pairs, "--session-path"), default_session_path());
            return Ok(CliCommand::SessionList(path));
        }
        if arg_is(args, 2, "save") {
            let flags = words(&["--session-path", "--name", "--directory", "--shell", "--title"]);
            let switches: Vec<String> = Vec::new();
            proof {
                assert(flags.deep_view() =~= session_save_flags());
                assert(switches.deep_view() =~= Seq::<Seq<char>>::empty());
            }
            let s = match scan(args, 3, &flags, &switches, true) {
                Err(e) => {
                    return Err(refusal(e, "session"));
                },
                Ok(s) => s,
            };
            let name = match last_value_of(&s.pairs, "--name") {
                None => {
                    return Err(CliError::MissingName);
                },
                Some(n) => n,
            };
            let path = value_or(last_value_of(&s.pairs, "--session-path"), default_session_path());
            let mut template = SessionTemplate::new(name);
            template.directory = value_or(
                last_value_of(&s.pairs, "--directory"),
                String::from_str("."),
            );
            template.shell = last_value_of(&s.pairs, "--shell");
            template.title = last_value_of(&s.pairs, "--title");
            template.extra_args = normalize_extra_args(&s.tail);
            return Ok(CliCommand::SessionSave(path, template));
        }
        return Err(CliError::Usage);
    }
    if arg_is(args, 1, "shell") {
        if args.len() < 3 || !arg_is(args, 2, "run") {
            return Err(CliError::Usage);
        }
        let flags = words(&["--config-path", "--session-path"]);
        let switches: Vec<String> = Vec::new();
        proof {
            assert(flags.deep_view() =~= shell_run_flags());
            assert(switches.deep_view() =~= Seq::<Seq<char>>::empty());
        }
        let s = match scan(args, 3, &flags, &switches, false) {
            Err(e) => {
                return Err(refusal(e, "shell"));
            },
            Ok(s) => s,
        };
        let config_path = value_or(last_value_of(&s.pairs, "--config-path"), default_config_path());
        let session_path = value_or(
            last_value_of(&s.pairs, "--session-path"),
            default_session_path(),
        );
        return Ok(CliCommand::ShellRun(config_path, session_path));
    }
    Err(CliError::Usage)
}

} // verus!
