use kitty_desktop::config_service::render_config_json;
use kitty_desktop::session_service::render_sessions_json;
use kitty_desktop::{ConfigService, DesktopConfig, SessionService, SessionTemplate};

#[test]
fn save_then_load_roundtrip() {
    let service = ConfigService::new("kitty_desktop_config_test.json".to_string());
    let config = DesktopConfig {
        default_directory: "/work".to_string(),
        default_shell: Some("/bin/zsh".to_string()),
        default_title: "Dev".to_string(),
        kitty_config_file: Some("/tmp/kitty.conf".to_string()),
    };
    // What saving writes is what loading reads back.
    let written = service.save(&config);
    let loaded = service.load(Some(written.as_str())).expect("load config");
    assert_eq!(loaded, config);
}

#[test]
fn config_service_roundtrip() {
    let service = ConfigService::new("kitty_desktop_config_integration_test.json".to_string());
    let cfg = DesktopConfig {
        default_directory: "/repo".to_string(),
        default_shell: Some("/bin/bash".to_string()),
        default_title: "kitty-desktop".to_string(),
        kitty_config_file: Some("/tmp/kitty.conf".to_string()),
    };
    let written = service.save(&cfg);
    let loaded = service.load(Some(written.as_str())).expect("load config");
    assert_eq!(loaded, cfg);
}

#[test]
fn missing_config_loads_defaults() {
    let service = ConfigService::new("absent.json".to_string());
    assert_eq!(service.config_path(), "absent.json");
    let loaded = service.load(None).unwrap();
    assert_eq!(loaded, DesktopConfig::default());
    assert_eq!(loaded.default_directory, ".");
    assert_eq!(loaded.default_title, "kitty_desktop");
}

#[test]
fn config_text_format() {
    let cfg = DesktopConfig {
        default_directory: "/w".to_string(),
        default_shell: None,
        default_title: "a\"b".to_string(),
        kitty_config_file: Some("k".to_string()),
    };
    assert_eq!(
        render_config_json(&cfg),
        "{\n  \"default_directory\": \"/w\",\n  \"default_shell\": null,\n  \"default_title\": \"a\\\"b\",\n  \"kitty_config_file\": \"k\"\n}"
    );
    let service = ConfigService::new("c.json".to_string());
    assert_eq!(service.save(&cfg), format!("{}\n", render_config_json(&cfg)));
}

#[test]
fn config_parse_falls_back_and_reads_first_key() {
    let service = ConfigService::new("c.json".to_string());
    let loaded = service
        .load(Some("{\"default_shell\": \"/bin/sh\", \"default_shell\": \"/bin/zsh\", \"kitty_config_file\": 3}"))
        .unwrap();
    assert_eq!(loaded.default_directory, ".");
    assert_eq!(loaded.default_title, "kitty_desktop");
    assert_eq!(loaded.default_shell, Some("/bin/sh".to_string()));
    assert_eq!(loaded.kitty_config_file, None);
    let loaded = service.load(Some("{\"default_title\":   \"unterminated}")).unwrap();
    assert_eq!(loaded.default_title, "kitty_desktop");
}

#[test]
fn session_service_upsert_and_list() {
    let service = SessionService::new("kitty_desktop_sessions_integration_test.json".to_string());
    let mut session = SessionTemplate::new("dev".to_string());
    session.directory = "/repo".to_string();
    session.extra_args = vec!["--single-instance".to_string()];
    let written = service.upsert_session(None, session).expect("save session");
    let sessions = service.list_sessions(Some(written.as_str())).expect("list sessions");
    assert_eq!(sessions.len(), 1);
    assert_eq!(sessions[0].name, "dev");
    assert_eq!(sessions[0].extra_args, vec!["--single-instance".to_string()]);
}

#[test]
fn upsert_and_get_session() {
    let service = SessionService::new("kitty_desktop_sessions_test.json".to_string());
    let mut first = SessionTemplate::new("dev".to_string());
    first.directory = "/work".to_string();
    first.title = Some("Dev".to_string());
    let stored = service.upsert_session(None, first).expect("save first");

    let mut replacement = SessionTemplate::new("dev".to_string());
    replacement.directory = "/srv".to_string();
    let stored = service.upsert_session(Some(stored.as_str()), replacement).expect("update");

    let loaded = service
        .get_session(Some(stored.as_str()), "dev")
        .expect("get")
        .expect("session exists");
    assert_eq!(loaded.directory, "/srv");
    assert_eq!(loaded.title, None);
    assert_eq!(service.list_sessions(Some(stored.as_str())).unwrap().len(), 1);
}

#[test]
fn upsert_appends_new_names_in_order() {
    let service = SessionService::new("s.json".to_string());
    let a = SessionTemplate::new("a".to_string());
    let mut b = SessionTemplate::new("b".to_string());
    b.shell = Some("/bin/fish".to_string());
    b.extra_args = vec!["x".to_string(), "".to_string(), " y ".to_string()];
    let stored = service.upsert_session(None, a.clone()).unwrap();
    let stored = service.upsert_session(Some(stored.as_str()), b.clone()).unwrap();
    let list = service.list_sessions(Some(stored.as_str())).unwrap();
    assert_eq!(list, vec![a, b.clone()]);
    assert_eq!(service.get_session(Some(stored.as_str()), "b").unwrap(), Some(b));
    assert_eq!(service.get_session(Some(stored.as_str()), "c").unwrap(), None);
    assert_eq!(service.get_session(None, "a").unwrap(), None);
}

#[test]
fn sessions_text_format() {
    let mut s = SessionTemplate::new("dev".to_string());
    s.extra_args = vec!["--a".to_string(), "b".to_string()];
    assert_eq!(
        render_sessions_json(&vec![s]),
        "[\n  {\n    \"name\": \"dev\",\n    \"directory\": \".\",\n    \"shell\": null,\n    \"title\": null,\n    \"extra_args\": [\"--a\", \"b\"]\n  }\n]"
    );
    assert_eq!(render_sessions_json(&Vec::new()), "[\n\n]");
}

#[test]
fn sessions_parse_skips_nameless_objects() {
    let service = SessionService::new("s.json".to_string());
    let list = service
        .list_sessions(Some("[{\"directory\": \"/x\"}, {\"name\": \"n\", \"extra_args\": [ \"a\" , , b ]}, {\"name\": \"open\""))
        .unwrap();
    assert_eq!(list.len(), 1);
    assert_eq!(list[0].name, "n");
    assert_eq!(list[0].directory, ".");
    assert_eq!(list[0].extra_args, vec!["a".to_string(), "b".to_string()]);
    assert!(service.list_sessions(None).unwrap().is_empty());
    assert_eq!(service.store_path(), "s.json");
}

#[test]
fn sessions_with_braces_and_blank_args_read_back() {
    let service = SessionService::new("s.json".to_string());
    let mut a = SessionTemplate::new("{dev".to_string());
    a.directory = "/w/{x".to_string();
    a.title = Some("t{".to_string());
    a.extra_args = vec!["".to_string(), "  ".to_string(), "{a".to_string()];
    let mut b = SessionTemplate::new("ops".to_string());
    b.shell = Some("/bin/sh".to_string());
    let stored = service.upsert_session(None, a.clone()).unwrap();
    let stored = service.upsert_session(Some(stored.as_str()), b.clone()).unwrap();
    assert_eq!(service.list_sessions(Some(stored.as_str())).unwrap(), vec![a.clone(), b.clone()]);
    assert_eq!(service.get_session(Some(stored.as_str()), "{dev").unwrap(), Some(a));
    let mut a2 = SessionTemplate::new("{dev".to_string());
    a2.directory = "/other".to_string();
    let stored = service.upsert_session(Some(stored.as_str()), a2.clone()).unwrap();
    assert_eq!(service.list_sessions(Some(stored.as_str())).unwrap(), vec![a2, b]);
}
