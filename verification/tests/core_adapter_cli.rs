use kitty_desktop::cli::{parse_cli, CliCommand, CliError};
use kitty_desktop::{
    normalize_extra_args, version_from_output, CommandOutput, KittyAdapter, KittyAdapterError,
    KittyLaunchConfig,
};

fn strings(v: &[&str]) -> Vec<String> {
    v.iter().map(|s| s.to_string()).collect()
}

#[test]
fn normalize_extra_args_strips_remainder_separator() {
    let args = vec!["--".to_string(), "--single-instance".to_string()];
    assert_eq!(normalize_extra_args(&args), vec!["--single-instance"]);
}

#[test]
fn normalize_extra_args_strips_separator() {
    let source = vec!["--".to_string(), "--single-instance".to_string()];
    assert_eq!(normalize_extra_args(&source), vec!["--single-instance"]);
}

#[test]
fn normalize_extra_args_without_separator() {
    let source = vec!["--single-instance".to_string()];
    assert_eq!(normalize_extra_args(&source), source);
}

#[test]
fn normalize_extra_args_keeps_later_separators() {
    let source = strings(&["-a", "--", "-b"]);
    assert_eq!(normalize_extra_args(&source), source);
    let source = strings(&["--", "--"]);
    assert_eq!(normalize_extra_args(&source), strings(&["--"]));
    assert!(normalize_extra_args(&Vec::new()).is_empty());
}

#[test]
fn build_launch_command_with_options() {
    let fake_kitty = "/tmp/kitty_desktop_fake_kitty".to_string();
    let adapter = KittyAdapter::with_candidates(vec![fake_kitty.clone()]);
    let config = KittyLaunchConfig {
        working_directory: Some("/work".to_string()),
        shell: Some("/bin/zsh".to_string()),
        session_file: Some("/tmp/session.conf".to_string()),
        title: Some("Dev".to_string()),
        config_file: Some("/tmp/kitty.conf".to_string()),
        extra_args: vec!["--single-instance".to_string()],
    };
    // The search of PATH found the candidate where it was written.
    let resolved = vec![Some(fake_kitty.clone())];
    let command = adapter.build_launch_command(&config, &resolved);
    let expected = vec![
        fake_kitty.clone(),
        "--directory".to_string(),
        "/work".to_string(),
        "--title".to_string(),
        "Dev".to_string(),
        "--config".to_string(),
        "/tmp/kitty.conf".to_string(),
        "--session".to_string(),
        "/tmp/session.conf".to_string(),
        "--single-instance".to_string(),
        "--".to_string(),
        "/bin/zsh".to_string(),
    ];
    assert_eq!(command.unwrap(), expected);
}

#[test]
fn build_launch_command_without_options_is_just_kitty() {
    let adapter = KittyAdapter::default();
    let command = adapter
        .build_launch_command(&KittyLaunchConfig::new(), &vec![Some("/usr/bin/kitty".to_string())])
        .unwrap();
    assert_eq!(command, strings(&["/usr/bin/kitty"]));
}

#[test]
fn detect_executable_takes_first_found_candidate() {
    let adapter = KittyAdapter::with_candidates(strings(&["a", "b", "c"]));
    let resolved = vec![None, Some("/opt/b".to_string()), Some("/opt/c".to_string())];
    assert_eq!(adapter.detect_executable(&resolved), Ok("/opt/b".to_string()));
}

#[test]
fn detect_executable_not_found() {
    let adapter = KittyAdapter::default();
    assert_eq!(adapter.detect_executable(&vec![None]), Err(KittyAdapterError::KittyNotFound));
    // A lookup result beyond the candidates is not looked at.
    assert_eq!(
        adapter.detect_executable(&vec![None, Some("/x".to_string())]),
        Err(KittyAdapterError::KittyNotFound)
    );
    let err = adapter
        .build_launch_command(&KittyLaunchConfig::new(), &Vec::new())
        .unwrap_err();
    assert_eq!(err, KittyAdapterError::KittyNotFound);
}

#[test]
fn error_messages() {
    assert_eq!(
        KittyAdapterError::KittyNotFound.message(),
        "kitty executable was not found in PATH. Please install kitty or configure executable candidates."
    );
    assert_eq!(KittyAdapterError::Io("denied".to_string()).message(), "I/O error: denied");
    assert_eq!(KittyAdapterError::CommandFailed("boom".to_string()).message(), "boom");
}

#[test]
fn version_is_first_line_trimmed() {
    assert_eq!(
        version_from_output(true, "  kitty 0.35.2 created by Kovid Goyal \nsecond\n"),
        Ok("kitty 0.35.2 created by Kovid Goyal".to_string())
    );
    assert_eq!(
        version_from_output(false, "kitty 1"),
        Err(KittyAdapterError::CommandFailed("failed to read kitty version".to_string()))
    );
    assert_eq!(
        version_from_output(true, "   \nkitty 2"),
        Err(KittyAdapterError::CommandFailed("kitty returned empty version output".to_string()))
    );
    assert_eq!(
        version_from_output(true, ""),
        Err(KittyAdapterError::CommandFailed("kitty returned empty version output".to_string()))
    );
}

#[test]
fn get_version_needs_kitty_and_a_run() {
    let adapter = KittyAdapter::default();
    let run = Ok(CommandOutput { success: true, stdout: "kitty 0.1\n".to_string() });
    assert_eq!(adapter.get_version(&vec![None], &run), Err(KittyAdapterError::KittyNotFound));
    assert_eq!(
        adapter.get_version(&vec![Some("/k".to_string())], &run),
        Ok("kitty 0.1".to_string())
    );
    let failed = Err(KittyAdapterError::Io("no such file".to_string()));
    assert_eq!(
        adapter.get_version(&vec![Some("/k".to_string())], &failed),
        Err(KittyAdapterError::Io("no such file".to_string()))
    );
}

#[test]
fn cli_launch_flags_and_extra_args() {
    let args = strings(&[
        "kitty_desktop", "launch", "--directory", "/w", "--dry-run", "--title", "T", "--",
        "--single-instance",
    ]);
    match parse_cli(&args).unwrap() {
        CliCommand::Launch(config, dry_run) => {
            assert!(dry_run);
            assert_eq!(config.working_directory, Some("/w".to_string()));
            assert_eq!(config.title, Some("T".to_string()));
            assert_eq!(config.shell, None);
            assert_eq!(config.extra_args, strings(&["--single-instance"]));
        }
        other => panic!("unexpected {:?}", other),
    }
}

#[test]
fn cli_refusals() {
    assert_eq!(parse_cli(&strings(&["kitty_desktop"])).unwrap_err(), CliError::Usage);
    assert_eq!(parse_cli(&strings(&["kitty_desktop", "fly"])).unwrap_err(), CliError::Usage);
    assert_eq!(parse_cli(&strings(&["kitty_desktop", "config"])).unwrap_err(), CliError::Usage);
    let e = parse_cli(&strings(&["kitty_desktop", "launch", "--shell"])).unwrap_err();
    assert_eq!(e, CliError::MissingValue("--shell".to_string()));
    assert_eq!(e.message(), "missing value for --shell");
    let e = parse_cli(&strings(&["kitty_desktop", "config", "show", "--bogus"])).unwrap_err();
    assert_eq!(e.message(), "unknown config flag: --bogus");
    let e = parse_cli(&strings(&["kitty_desktop", "session", "save", "--directory", "/d"]))
        .unwrap_err();
    assert_eq!(e, CliError::MissingName);
    assert_eq!(e.message(), "missing required --name");
    let e = parse_cli(&strings(&["kitty_desktop", "shell", "run", "-x"])).unwrap_err();
    assert_eq!(e.message(), "unknown shell flag: -x");
    assert!(CliError::Usage.message().starts_with("kitty_desktop core-adapter CLI"));
}

#[test]
fn cli_paths_default_and_last_value_wins() {
    match parse_cli(&strings(&["kitty_desktop", "config", "show"])).unwrap() {
        CliCommand::ConfigShow(p) => assert_eq!(p, ".kitty_desktop/config.json"),
        other => panic!("unexpected {:?}", other),
    }
    let args = strings(&[
        "kitty_desktop", "shell", "run", "--session-path", "a.json", "--session-path", "b.json",
    ]);
    match parse_cli(&args).unwrap() {
        CliCommand::ShellRun(c, s) => {
            assert_eq!(c, ".kitty_desktop/config.json");
            assert_eq!(s, "b.json");
        }
        other => panic!("unexpected {:?}", other),
    }
}

#[test]
fn cli_config_set_and_session_save() {
    let args = strings(&["kitty_desktop", "config", "set", "--shell", "/bin/fish"]);
    match parse_cli(&args).unwrap() {
        CliCommand::ConfigSet(p, c) => {
            assert_eq!(p, ".kitty_desktop/config.json");
            assert_eq!(c.default_directory, ".");
            assert_eq!(c.default_shell, Some("/bin/fish".to_string()));
            assert_eq!(c.default_title, "kitty_desktop");
            assert_eq!(c.kitty_config_file, None);
        }
        other => panic!("unexpected {:?}", other),
    }
    let args = strings(&[
        "kitty_desktop", "session", "save", "--name", "dev", "--session-path", "s.json", "--",
        "--hold",
    ]);
    match parse_cli(&args).unwrap() {
        CliCommand::SessionSave(p, t) => {
            assert_eq!(p, "s.json");
            assert_eq!(t.name, "dev");
            assert_eq!(t.directory, ".");
            assert_eq!(t.extra_args, strings(&["--hold"]));
        }
        other => panic!("unexpected {:?}", other),
    }
    match parse_cli(&strings(&["kitty_desktop", "version"])).unwrap() {
        CliCommand::Version => {}
        other => panic!("unexpected {:?}", other),
    }
    match parse_cli(&strings(&["kitty_desktop", "session", "list"])).unwrap() {
        CliCommand::SessionList(p) => assert_eq!(p, ".kitty_desktop/sessions.json"),
        other => panic!("unexpected {:?}", other),
    }
}

#[test]
fn config_set_then_load_gives_named_settings_over_defaults() {
    let args = strings(&[
        "kitty_desktop", "config", "set", "--config-path", "c.json", "--title", "A", "--title",
        "B {x}", "--kitty-config", "k.conf",
    ]);
    match parse_cli(&args).unwrap() {
        CliCommand::ConfigSet(p, c) => {
            let service = kitty_desktop::ConfigService::new(p);
            assert_eq!(service.config_path(), "c.json");
            let payload = service.save(&c);
            let loaded = service.load(Some(payload.as_str())).unwrap();
            assert_eq!(loaded.default_directory, ".");
            assert_eq!(loaded.default_shell, None);
            assert_eq!(loaded.default_title, "B {x}");
            assert_eq!(loaded.kitty_config_file, Some("k.conf".to_string()));
            assert_eq!(loaded, c);
        }
        other => panic!("unexpected {:?}", other),
    }
}

#[test]
fn session_save_then_list_replaces_by_name() {
    let service = kitty_desktop::SessionService::new("s.json".to_string());
    let mut other = kitty_desktop::SessionTemplate::new("ops".to_string());
    other.directory = "/srv".to_string();
    let mut old = kitty_desktop::SessionTemplate::new("dev".to_string());
    old.title = Some("Old".to_string());
    let stored = service.upsert_session(None, old).unwrap();
    let stored = service.upsert_session(Some(stored.as_str()), other.clone()).unwrap();
    let args = strings(&[
        "kitty_desktop", "session", "save", "--session-path", "s.json", "--name", "dev",
        "--directory", "/a", "--directory", "/w", "--shell", "/bin/sh", "--", "--hold", "",
    ]);
    match parse_cli(&args).unwrap() {
        CliCommand::SessionSave(p, t) => {
            assert_eq!(p, "s.json");
            let stored = service.upsert_session(Some(stored.as_str()), t.clone()).unwrap();
            let listed = service.list_sessions(Some(stored.as_str())).unwrap();
            assert_eq!(listed.len(), 2);
            assert_eq!(listed[0].name, "dev");
            assert_eq!(listed[0].directory, "/w");
            assert_eq!(listed[0].shell, Some("/bin/sh".to_string()));
            assert_eq!(listed[0].title, None);
            assert_eq!(listed[0].extra_args, strings(&["--hold", ""]));
            assert_eq!(listed[1], other);
            assert_eq!(listed[0], t);
        }
        other => panic!("unexpected {:?}", other),
    }
}
