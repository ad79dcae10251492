use kitty_desktop::desktop_shell::{parse_repl_line, DesktopShell, ReplCommand, StoreSnapshot};
use kitty_desktop::{
    ConfigService, DesktopConfig, KittyAdapter, KittyAdapterError, SessionService, SessionTemplate,
};

const FAKE: &str = "/tmp/kitty_shell_fake_kitty";

fn shell() -> DesktopShell {
    let adapter = KittyAdapter::with_candidates(vec![FAKE.to_string()]);
    DesktopShell::new_with_adapter(adapter, "config.json".to_string(), "sessions.json".to_string())
}

fn found() -> Vec<Option<String>> {
    vec![Some(FAKE.to_string())]
}

fn stored_config(cfg: &DesktopConfig) -> Option<String> {
    Some(ConfigService::new("config.json".to_string()).save(cfg))
}

#[test]
fn launch_from_default_profile_uses_config() {
    let shell = shell();
    let snapshot = StoreSnapshot {
        config: Ok(stored_config(&DesktopConfig {
            default_directory: "/tmp".to_string(),
            default_shell: Some("/bin/bash".to_string()),
            default_title: "dev".to_string(),
            kitty_config_file: None,
        })),
        sessions: Ok(None),
    };
    let out = shell.launch_from_profile(None, &snapshot, &found()).expect("dry run");
    assert_eq!(out[0], FAKE);
    assert_eq!(
        out,
        vec![FAKE, "--directory", "/tmp", "--title", "dev", "--", "/bin/bash"]
    );
}

#[test]
fn launch_with_session_profile_name_not_found() {
    let shell = shell();
    let snapshot = StoreSnapshot {
        config: Ok(stored_config(&DesktopConfig::default())),
        sessions: Ok(None),
    };
    let err = shell
        .launch_from_profile(Some("missing"), &snapshot, &found())
        .expect_err("err");
    assert!(err.message().contains("session profile not found"));
    assert_eq!(
        err,
        KittyAdapterError::CommandFailed("session profile not found: missing".to_string())
    );
}

#[test]
fn launch_with_session_profile_uses_session_data() {
    let shell = shell();
    let mut s = SessionTemplate::new("dev".to_string());
    s.directory = "/repo".to_string();
    s.extra_args = vec!["--single-instance".to_string()];
    let sessions = SessionService::new("sessions.json".to_string())
        .upsert_session(None, s)
        .expect("upsert");
    let snapshot = StoreSnapshot {
        config: Ok(stored_config(&DesktopConfig::default())),
        sessions: Ok(Some(sessions)),
    };
    let out = shell
        .launch_from_profile(Some("dev"), &snapshot, &found())
        .expect("dry run");
    assert_eq!(out[0], FAKE);
    assert!(out.iter().any(|x| x == "--single-instance"));
    assert_eq!(out, vec![FAKE, "--directory", "/repo", "--single-instance"]);
}

#[test]
fn launch_errors_come_in_order() {
    let shell = shell();
    let broken = StoreSnapshot {
        config: Err(KittyAdapterError::Io("denied".to_string())),
        sessions: Ok(None),
    };
    assert_eq!(
        shell.launch_from_profile(None, &broken, &found()),
        Err(KittyAdapterError::Io("denied".to_string()))
    );
    let fine = StoreSnapshot { config: Ok(None), sessions: Ok(None) };
    assert_eq!(
        shell.launch_from_profile(None, &fine, &vec![None]),
        Err(KittyAdapterError::KittyNotFound)
    );
    let unreadable_sessions = StoreSnapshot {
        config: Ok(None),
        sessions: Err(KittyAdapterError::Io("gone".to_string())),
    };
    // Sessions are only read for a profile.
    assert!(shell.launch_from_profile(None, &unreadable_sessions, &found()).is_ok());
    assert_eq!(
        shell.launch_from_profile(Some("x"), &unreadable_sessions, &found()),
        Err(KittyAdapterError::Io("gone".to_string()))
    );
}

#[test]
fn save_settings_updates_config() {
    let shell = DesktopShell::new("config.json".to_string(), "sessions.json".to_string());
    let saved = shell
        .save_settings(
            &Ok(None),
            Some("/work".to_string()),
            Some("/bin/zsh".to_string()),
            Some("Dev".to_string()),
            None,
        )
        .expect("save settings");
    assert_eq!(saved.default_directory, "/work");

    let written = shell.config_service.save(&saved);
    let loaded = shell.config_service.load(Some(written.as_str())).expect("load");
    assert_eq!(loaded.default_title, "Dev");
    assert_eq!(loaded, saved);
}

#[test]
fn save_settings_keeps_unset_values() {
    let shell = shell();
    let before = DesktopConfig {
        default_directory: "/a".to_string(),
        default_shell: Some("/bin/sh".to_string()),
        default_title: "t".to_string(),
        kitty_config_file: Some("k.conf".to_string()),
    };
    let saved = shell
        .save_settings(&Ok(stored_config(&before)), None, None, Some("u".to_string()), None)
        .unwrap();
    assert_eq!(saved.default_directory, "/a");
    assert_eq!(saved.default_shell, Some("/bin/sh".to_string()));
    assert_eq!(saved.default_title, "u");
    assert_eq!(saved.kitty_config_file, Some("k.conf".to_string()));
    assert_eq!(
        shell.save_settings(&Err(KittyAdapterError::Io("x".to_string())), None, None, None, None),
        Err(KittyAdapterError::Io("x".to_string()))
    );
}

#[test]
fn repl_exit_works() {
    let shell = DesktopShell::new("config.json".to_string(), "sessions.json".to_string());
    let snapshot = StoreSnapshot { config: Ok(None), sessions: Ok(None) };
    let transcript = shell.run_repl("exit\n", &snapshot, &vec![None]);
    assert!(transcript.outcome.is_ok());
    let text = transcript.output;
    assert!(text.contains("kitty_desktop shell"));
    assert!(text.contains("bye"));
}

#[test]
fn repl_transcript() {
    let shell = shell();
    let snapshot = StoreSnapshot { config: Ok(None), sessions: Ok(None) };
    let t = shell.run_repl("\n  settings \nlaunch\nlaunch nope\nwhat\n", &snapshot, &found());
    assert!(t.outcome.is_ok());
    assert_eq!(
        t.output,
        format!(
            "kitty_desktop shell (commands: launch [name], settings, exit)\n> > directory=.\nshell=\ntitle=kitty_desktop\n> {} --directory . --title kitty_desktop\n> ERROR: session profile not found: nope\n> unknown command: what\n> ",
            FAKE
        )
    );
    let broken = StoreSnapshot {
        config: Err(KittyAdapterError::Io("denied".to_string())),
        sessions: Ok(None),
    };
    let t = shell.run_repl("settings\nexit\n", &broken, &found());
    assert_eq!(t.outcome, Err(KittyAdapterError::Io("denied".to_string())));
    assert_eq!(t.output, "kitty_desktop shell (commands: launch [name], settings, exit)\n> ");
    let t = shell.run_repl("quit", &snapshot, &found());
    assert!(t.output.ends_with("> bye\n"));
}

#[test]
fn repl_lines() {
    assert!(matches!(parse_repl_line("   \n"), ReplCommand::Skip));
    assert!(matches!(parse_repl_line("exit\n"), ReplCommand::Exit));
    assert!(matches!(parse_repl_line(" quit"), ReplCommand::Exit));
    assert!(matches!(parse_repl_line("settings"), ReplCommand::Settings));
    assert_eq!(parse_repl_line("launch"), ReplCommand::Launch(None));
    assert_eq!(parse_repl_line("launch  dev \n"), ReplCommand::Launch(Some("dev".to_string())));
    assert_eq!(parse_repl_line("launcher"), ReplCommand::Launch(Some("er".to_string())));
    assert_eq!(parse_repl_line(" ls -l "), ReplCommand::Unknown("ls -l".to_string()));
}

#[test]
fn repl_step_replies_and_stops() {
    let shell = shell();
    let snapshot = StoreSnapshot { config: Ok(None), sessions: Ok(None) };
    let step = shell.repl_step("  \n", &snapshot, &found()).unwrap();
    assert_eq!(step.reply, "");
    assert!(!step.stop);
    let step = shell.repl_step("launch\n", &snapshot, &found()).unwrap();
    assert_eq!(step.reply, format!("{} --directory . --title kitty_desktop\n", FAKE));
    assert!(!step.stop);
    let step = shell.repl_step("launch\n", &snapshot, &vec![None]).unwrap();
    assert_eq!(
        step.reply,
        "ERROR: kitty executable was not found in PATH. Please install kitty or configure executable candidates.\n"
    );
    assert!(!step.stop);
    let step = shell.repl_step(" quit \n", &snapshot, &found()).unwrap();
    assert_eq!(step.reply, "bye\n");
    assert!(step.stop);
    let broken = StoreSnapshot {
        config: Err(KittyAdapterError::Io("denied".to_string())),
        sessions: Ok(None),
    };
    assert_eq!(
        shell.repl_step("settings", &broken, &found()).unwrap_err(),
        KittyAdapterError::Io("denied".to_string())
    );
}

#[test]
fn repl_launch_line_after_other_lines() {
    let shell = shell();
    let mut session = SessionTemplate::new("dev".to_string());
    session.directory = "/w".to_string();
    let sessions = SessionService::new("sessions.json".to_string())
        .upsert_session(None, session)
        .unwrap();
    let snapshot = StoreSnapshot { config: Ok(None), sessions: Ok(Some(sessions)) };
    let t = shell.run_repl("what\n\nlaunch dev\nsettings", &snapshot, &found());
    assert!(t.outcome.is_ok());
    assert_eq!(
        t.output,
        format!(
            "kitty_desktop shell (commands: launch [name], settings, exit)\n> unknown command: what\n> > {} --directory /w\n> directory=.\nshell=\ntitle=kitty_desktop\n> ",
            FAKE
        )
    );
}
