//! Health checks of the kitty installation and the desktop stores.
use vstd::prelude::*;

use crate::config_service::ConfigService;
use crate::session_service::SessionService;
use crate::text::{chars_of, contains_text, occurs_at, join, lemma_join_contains, lemma_occurs_within, push_str, string_of};
use crate::{
    detected, error_text, output_result, reported_version, CommandOutput,
    KittyAdapter, KittyAdapterError,
};

verus! {

/// The outcome of one check.
#[derive(Debug, Clone, PartialEq, Eq)]
pub struct CheckResult {
    pub name: &'static str,
    pub ok: bool,
    pub detail: String,
}

/// The mathematical content of a [`CheckResult`].
pub struct CheckView {
    pub name: Seq<char>,
    pub ok: bool,
    pub detail: Seq<char>,
}

impl View for CheckResult {
    type V = CheckView;

    open spec fn view(&self) -> CheckView {
        CheckView { name: self.name@, ok: self.ok, detail: self.detail@ }
    }
}

/// The outcomes of all checks, in order.
#[derive(Debug, Clone, PartialEq, Eq)]
pub struct DiagnosticsReport {
    pub checks: Vec<CheckResult>,
}

/// The contents of a list of checks.
pub open spec fn checks_view(v: Seq<CheckResult>) -> Seq<CheckView> {
    v.map_values(|c: CheckResult| c@)
}

/// The line that reports one check: `[OK] name: detail` or
/// `[FAIL] name: detail`.
pub open spec fn check_line(c: CheckView) -> Seq<char> {
    (if c.ok {
        "[OK] "@
    } else {
        "[FAIL] "@
    }) + c.name + ": "@ + c.detail
}

impl DiagnosticsReport {
    /// Every check passed.
    pub fn is_healthy(&self) -> (b: bool)
        ensures
            b == forall|i: int| 0 <= i < self.checks@.len() ==> #[trigger] self.checks@[i].ok,
    {
        let mut i: usize = 0;
        while i < self.checks.len()
            invariant
                i <= self.checks.len(),
                forall|j: int| 0 <= j < i ==> #[trigger] self.checks@[j].ok,
            decreases self.checks.len() - i,
        {
            if !self.checks[i].ok {
                return false;
            }
            i = i + 1;
        }
        true
    }

    /// The report as text: one line per check, in order.
    pub fn render_text(&self) -> (s: String)
        ensures
            s@ == join(checks_view(self.checks@).map_values(|c: CheckView| check_line(c)), "\n"@),
    {
        let ghost lines = checks_view(self.checks@).map_values(|c: CheckView| check_line(c));
        let mut out: Vec<char> = Vec::new();
        let mut i: usize = 0;
        assert(lines.take(0) =~= Seq::<Seq<char>>::empty());
        while i < self.checks.len()
            invariant
                i <= self.checks.len(),
                lines == checks_view(self.checks@).map_values(|c: CheckView| check_line(c)),
                out@ == join(lines.take(i as int), "\n"@),
            decreases self.checks.len() - i,
        {
            proof {
                crate::text::lemma_join_push(lines.take(i as int), "\n"@, lines[i as int]);
                assert(lines.take(i as int).push(lines[i as int]) =~= lines.take(i + 1));
            }
            let ghost before = out@;
            if i > 0 {
                push_str(&mut out, "\n");
            }
            let c = &self.checks[i];
            if c.ok {
                push_str(&mut out, "[OK] ");
            } else {
                push_str(&mut out, "[FAIL] ");
            }
            push_str(&mut out, c.name);
            push_str(&mut out, ": ");
            push_str(&mut out, c.detail.as_str());
            assert(out@ =~= join(lines.take(i + 1), "\n"@));
            i = i + 1;
        }
        assert(lines.take(self.checks.len() as int) =~= lines);
        string_of(&out)
    }
}

/// What the host observed for a diagnostics run: the search of `PATH` for
/// each executable candidate, running `kitty --version` at the path found,
/// whether the parent directory of each store exists, and what reading each
/// store gave (`Ok(None)` when the file does not exist).
#[derive(Debug)]
pub struct EnvironmentProbe {
    pub resolved_candidates: Vec<Option<String>>,
    pub version_run: Result<CommandOutput, KittyAdapterError>,
    pub config_parent_exists: bool,
    pub config_stored: Result<Option<String>, KittyAdapterError>,
    pub session_parent_exists: bool,
    pub session_stored: Result<Option<String>, KittyAdapterError>,
}

/// What `Path::parent` gives for a path, as displayed text.
pub uninterp spec fn path_parent_of(path: Seq<char>) -> Option<Seq<char>>;

/// The parent directory of `path` as `std::path::Path::parent` finds it
/// (`None` for a root or an empty path), displayed as text. The contract
/// claims only that the result is a function of the path, named
/// `path_parent_of`.
#[verifier::external_body]
fn path_parent(path: &str) -> (r: Option<String>)
    ensures
        r.deep_view() == path_parent_of(path@),
{
    match std::path::Path::new(path).parent() {
        Some(dir) => Some(dir.display().to_string()),
        None => None,
    }
}

/// The check that the parent directory of a store is usable.
pub open spec fn parent_check(name: Seq<char>, parent: Option<Seq<char>>, exists: bool) -> CheckView {
    match parent {
        Some(dir) => CheckView {
            name,
            ok: true,
            detail: if exists {
                dir + " exists"@
            } else {
                dir + " will be created on first write"@
            },
        },
        None => CheckView { name, ok: false, detail: "target has no parent directory"@ },
    }
}

/// The check of a result that must not be an error.
pub open spec fn outcome_check(name: Seq<char>, ok: bool, good: Seq<char>, bad: Seq<char>) -> CheckView {
    CheckView { name, ok, detail: if ok { good } else { bad } }
}

/// The checks of a diagnostics run over the stores at `config_path` and
/// `session_path`, in order.
pub open spec fn diagnostics_checks(
    candidates: Seq<Seq<char>>,
    config_path: Seq<char>,
    session_path: Seq<char>,
    probe: EnvironmentProbe,
) -> Seq<CheckView> {
    let resolved = probe.resolved_candidates.deep_view();
    seq![
        match detected(candidates, resolved) {
            Ok(p) => CheckView { name: "kitty_executable"@, ok: true, detail: "found at "@ + p },
            Err(_) => CheckView {
                name: "kitty_executable"@,
                ok: false,
                detail: "kitty not found in PATH"@,
            },
        },
        match reported_version(candidates, resolved, output_result(probe.version_run)) {
            Ok(v) => CheckView { name: "kitty_version"@, ok: true, detail: v },
            Err(e) => CheckView { name: "kitty_version"@, ok: false, detail: error_text(e) },
        },
        parent_check(
            "config_parent_dir"@,
            path_parent_of(config_path),
            probe.config_parent_exists,
        ),
        outcome_check(
            "config_load"@,
            probe.config_stored is Ok,
            "config load OK"@,
            "config load failed"@,
        ),
        parent_check(
            "session_parent_dir"@,
            path_parent_of(session_path),
            probe.session_parent_exists,
        ),
        outcome_check(
            "session_list"@,
            probe.session_stored is Ok,
            "session list OK"@,
            "session list failed"@,
        ),
    ]
}

/// The report of a diagnostics run, as text.
pub open spec fn report_text(
    candidates: Seq<Seq<char>>,
    config_path: Seq<char>,
    session_path: Seq<char>,
    probe: EnvironmentProbe,
) -> Seq<char> {
    join(
        diagnostics_checks(candidates, config_path, session_path, probe).map_values(
            |c: CheckView| check_line(c),
        ),
        "\n"@,
    )
}

/// The line of a check names it.
proof fn lemma_line_names(c: CheckView)
    ensures
        contains_text(check_line(c), c.name),
{
    let head = if c.ok {
        "[OK] "@
    } else {
        "[FAIL] "@
    };
    assert(occurs_at(c.name, c.name, 0)) by {
        assert(c.name.subrange(0, c.name.len() as int) =~= c.name);
    }
    lemma_occurs_within(head, c.name, ": "@ + c.detail, c.name, 0);
    assert(head + c.name + (": "@ + c.detail) =~= check_line(c));
}

/// Whatever the host observed, the text of a diagnostics run names the
/// check of the kitty executable, of loading the configuration and of
/// listing the sessions.
pub proof fn lemma_report_names_checks(
    candidates: Seq<Seq<char>>,
    config_path: Seq<char>,
    session_path: Seq<char>,
    probe: EnvironmentProbe,
)
    ensures
        contains_text(report_text(candidates, config_path, session_path, probe), "kitty_executable"@),
        contains_text(report_text(candidates, config_path, session_path, probe), "config_load"@),
        contains_text(report_text(candidates, config_path, session_path, probe), "session_list"@),
{
    let checks = diagnostics_checks(candidates, config_path, session_path, probe);
    let lines = checks.map_values(|c: CheckView| check_line(c));
    lemma_line_names(checks[0]);
    lemma_line_names(checks[3]);
    lemma_line_names(checks[5]);
    lemma_join_contains(lines, "\n"@, 0, "kitty_executable"@);
    lemma_join_contains(lines, "\n"@, 3, "config_load"@);
    lemma_join_contains(lines, "\n"@, 5, "session_list"@);
}

/// A diagnostics run makes six checks, in this order: the kitty executable
/// (passing exactly when an executable candidate was found), the kitty
/// version, the configuration's parent directory, loading the configuration
/// (passing exactly when reading its store succeeded), the sessions' parent
/// directory, and listing the sessions (passing exactly when reading their
/// store succeeded); a failed load or list says so in its detail.
pub proof fn lemma_diagnostics_outcomes(
    candidates: Seq<Seq<char>>,
    config_path: Seq<char>,
    session_path: Seq<char>,
    probe: EnvironmentProbe,
)
    ensures
        ({
            let cs = diagnostics_checks(candidates, config_path, session_path, probe);
            &&& cs.len() == 6
            &&& cs[0].name == "kitty_executable"@
            &&& cs[0].ok == detected(candidates, probe.resolved_candidates.deep_view()) is Ok
            &&& cs[1].name == "kitty_version"@
            &&& cs[2].name == "config_parent_dir"@
            &&& cs[3].name == "config_load"@
            &&& cs[3].ok == probe.config_stored is Ok
            &&& cs[3].detail == (if probe.config_stored is Ok {
                "config load OK"@
            } else {
                "config load failed"@
            })
            &&& cs[4].name == "session_parent_dir"@
            &&& cs[5].name == "session_list"@
            &&& cs[5].ok == probe.session_stored is Ok
            &&& cs[5].detail == (if probe.session_stored is Ok {
                "session list OK"@
            } else {
                "session list failed"@
            })
        }),
{
}

/// The check that the parent directory of the store at `target_path` is
/// usable; `exists` is whether the host found that directory.
fn check_parent_dir(name: &'static str, target_path: &str, exists: bool) -> (c: CheckResult)
    ensures
        c@ == parent_check(name@, path_parent_of(target_path@), exists),
{
    match path_parent(target_path) {
        Some(dir) => {
            let mut detail = chars_of(dir.as_str());
            if exists {
                push_str(&mut detail, " exists");
            } else {
                push_str(&mut detail, " will be created on first write");
            }
            CheckResult { name, ok: true, detail: string_of(&detail) }
        },
        None => CheckResult {
            name,
            ok: false,
            detail: String::from_str("target has no parent directory"),
        },
    }
}

/// Runs every check on what the host observed.
pub fn run_diagnostics(
    adapter: &KittyAdapter,
    config_service: &ConfigService,
    session_service: &SessionService,
    probe: &EnvironmentProbe,
) -> (r: Result<DiagnosticsReport, KittyAdapterError>)
    ensures
        r matches Ok(report) && checks_view(report.checks@) == diagnostics_checks(
            adapter.candidates(),
            config_service.spec_config_path(),
            session_service.spec_store_path(),
            *probe,
        ),
        r matches Ok(report) ==> ({
            &&& report.checks@.len() == 6
            &&& report.checks@[3].ok == probe.config_stored is Ok
            &&& report.checks@[5].ok == probe.session_stored is Ok
        }),
{
    let mut checks: Vec<CheckResult> = Vec::new();
    let executable = match adapter.detect_executable(&probe.resolved_candidates) {
        Ok(path) => {
            let mut detail = chars_of("found at ");
            push_str(&mut detail, path.as_str());
            CheckResult { name: "kitty_executable", ok: true, detail: string_of(&detail) }
        },
        Err(_) => CheckResult {
            name: "kitty_executable",
            ok: false,
            detail: String::from_str("kitty not found in PATH"),
        },
    };
    checks.push(executable);
    let version = match adapter.get_version(&probe.resolved_candidates, &probe.version_run) {
        Ok(v) => CheckResult { name: "kitty_version", ok: true, detail: v },
        Err(e) => CheckResult { name: "kitty_version", ok: false, detail: e.message() },
    };
    checks.push(version);
    checks.push(
        check_parent_dir("config_parent_dir", config_service.config_path(), probe.config_parent_exists),
    );
    let config_load_ok = match &probe.config_stored {
        Ok(stored) => {
            let loaded = match stored {
                Some(t) => config_service.load(Some(t.as_str())),
                None => config_service.load(None),
            };
            loaded.is_ok()
        },
        Err(_) => false,
    };
    checks.push(
        CheckResult {
            name: "config_load",
            ok: config_load_ok,
            detail: if config_load_ok {
                String::from_str("config load OK")
            } else {
                String::from_str("config load failed")
            },
        },
    );
    checks.push(
        check_parent_dir("session_parent_dir", session_service.store_path().as_str(), probe.session_parent_exists),
    );
    let session_list_ok = match &probe.session_stored {
        Ok(stored) => {
            let listed = match stored {
                Some(t) => session_service.list_sessions(Some(t.as_str())),
                None => session_service.list_sessions(None),
            };
            listed.is_ok()
        },
        Err(_) => false,
    };
    checks.push(
        CheckResult {
            name: "session_list",
            ok: session_list_ok,
            detail: if session_list_ok {
                String::from_str("session list OK")
            } else {
                String::from_str("session list failed")
            },
        },
    );
    let report = DiagnosticsReport { checks };
    assert(checks_view(report.checks@) =~= diagnostics_checks(
        adapter.candidates(),
        config_service.spec_config_path(),
        session_service.spec_store_path(),
        *probe,
    ));
    Ok(report)
}

} // verus!
