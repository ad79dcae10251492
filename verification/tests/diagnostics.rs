use kitty_desktop::diagnostics::{run_diagnostics, CheckResult, DiagnosticsReport, EnvironmentProbe};
use kitty_desktop::{
    CommandOutput, ConfigService, KittyAdapter, KittyAdapterError, SessionService,
};

fn probe_without_kitty() -> EnvironmentProbe {
    EnvironmentProbe {
        resolved_candidates: vec![None],
        version_run: Err(KittyAdapterError::KittyNotFound),
        config_parent_exists: false,
        config_stored: Ok(None),
        session_parent_exists: false,
        session_stored: Ok(None),
    }
}

#[test]
fn report_health_reflects_failed_checks() {
    let report = DiagnosticsReport {
        checks: vec![
            CheckResult { name: "a", ok: true, detail: "ok".to_string() },
            CheckResult { name: "b", ok: false, detail: "bad".to_string() },
        ],
    };
    assert!(!report.is_healthy());
    assert!(report.render_text().contains("[FAIL] b"));
}

#[test]
fn report_text_lines() {
    let report = DiagnosticsReport {
        checks: vec![
            CheckResult { name: "a", ok: true, detail: "ok".to_string() },
            CheckResult { name: "b", ok: false, detail: "bad".to_string() },
        ],
    };
    assert_eq!(report.render_text(), "[OK] a: ok\n[FAIL] b: bad");
    let healthy = DiagnosticsReport { checks: vec![] };
    assert!(healthy.is_healthy());
    assert_eq!(healthy.render_text(), "");
}

#[test]
fn diagnostics_run_produces_expected_checks() {
    let adapter = KittyAdapter::default();
    let config_service = ConfigService::new(".kitty_desktop/config.json".to_string());
    let session_service = SessionService::new(".kitty_desktop/sessions.json".to_string());

    let report =
        run_diagnostics(&adapter, &config_service, &session_service, &probe_without_kitty())
            .expect("report");
    assert!(report.checks.iter().any(|x| x.name == "kitty_executable"));
    assert!(report.checks.iter().any(|x| x.name == "config_load"));
    assert!(report.checks.iter().any(|x| x.name == "session_list"));
}

#[test]
fn diagnostics_details() {
    let adapter = KittyAdapter::default();
    let config_service = ConfigService::new(".kitty_desktop/config.json".to_string());
    let session_service = SessionService::new(".kitty_desktop/sessions.json".to_string());
    let report =
        run_diagnostics(&adapter, &config_service, &session_service, &probe_without_kitty())
            .unwrap();
    let lines: Vec<String> = report.render_text().lines().map(|l| l.to_string()).collect();
    assert_eq!(
        lines,
        vec![
            "[FAIL] kitty_executable: kitty not found in PATH",
            "[FAIL] kitty_version: kitty executable was not found in PATH. Please install kitty or configure executable candidates.",
            "[OK] config_parent_dir: .kitty_desktop will be created on first write",
            "[OK] config_load: config load OK",
            "[OK] session_parent_dir: .kitty_desktop will be created on first write",
            "[OK] session_list: session list OK",
        ]
    );
    assert!(!report.is_healthy());

    let probe = EnvironmentProbe {
        resolved_candidates: vec![Some("/usr/bin/kitty".to_string())],
        version_run: Ok(CommandOutput { success: true, stdout: "kitty 0.40.0\n".to_string() }),
        config_parent_exists: true,
        config_stored: Err(KittyAdapterError::Io("denied".to_string())),
        session_parent_exists: false,
        session_stored: Ok(Some("[]".to_string())),
    };
    let config_service = ConfigService::new("/etc/kitty_desktop.json".to_string());
    let session_service = SessionService::new("/".to_string());
    let report = run_diagnostics(&adapter, &config_service, &session_service, &probe).unwrap();
    let lines: Vec<String> = report.render_text().lines().map(|l| l.to_string()).collect();
    assert_eq!(
        lines,
        vec![
            "[OK] kitty_executable: found at /usr/bin/kitty",
            "[OK] kitty_version: kitty 0.40.0",
            "[OK] config_parent_dir: /etc exists",
            "[FAIL] config_load: config load failed",
            "[FAIL] session_parent_dir: target has no parent directory",
            "[OK] session_list: session list OK",
        ]
    );
}

#[test]
fn doctor_report_text_names_checks() {
    let adapter = KittyAdapter::default();
    let config_service = ConfigService::new(".kitty_desktop/config.json".to_string());
    let session_service = SessionService::new(".kitty_desktop/sessions.json".to_string());
    let mut probe = probe_without_kitty();
    probe.config_stored = Err(KittyAdapterError::Io("denied".to_string()));
    let text = run_diagnostics(&adapter, &config_service, &session_service, &probe)
        .expect("report")
        .render_text();
    assert!(text.contains("kitty_executable"));
    assert!(text.contains("[FAIL] config_load: config load failed"));
    assert!(text.contains("[OK] session_list: session list OK"));
}
