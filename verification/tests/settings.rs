use std::path::PathBuf;
use vigil_collector::binary64::Real;
use vigil_collector::cli::Cli;
use vigil_collector::config::{
    default_address, default_log_enabled, default_log_level, default_max_ws, default_port,
    default_probe_timeout, default_probes, default_push_interval, legacy_settings_dir,
    legacy_settings_dir_in, migrate_legacy, read_settings, settings_dir, settings_dir_in,
    settings_file, settings_file_in, Settings, SettingsAction, SettingsEvent,
};
use vigil_collector::log::{
    directive_for, filter_for, init, log_dir, log_dir_in, log_file_path, log_file_path_in, Filter,
};
use vigil_collector::startup::{
    effective_address, effective_port, hub_mode, resolve_addr, AddrSource, HubMode,
};

fn cli() -> Cli {
    Cli {
        address: String::new(),
        port: 0,
        hub: None,
        hub_key: None,
        hub_name: None,
        hub_tags: None,
    }
}

fn is_default(s: &Settings) -> bool {
    s.logging_enabled
        && s.log_level == "INFO"
        && s.address == "localhost"
        && s.port_number == 4500
        && s.max_ws_connections == 20
        && s.ws_push_interval == Real::from_bits(1.0_f64.to_bits())
        && s.probes.len() == 2
        && s.probes[0].name == "edcs.app"
        && s.probes[0].url == "https://edcs.app"
        && s.probes[1].name == "api.edcs.app"
        && s.probes[1].url == "https://api.edcs.app"
        && s.probe_timeout == Real::from_bits(5.0_f64.to_bits())
}

#[test]
fn defaults_are_the_documented_ones() {
    assert!(is_default(&Settings::default()));
    assert!(default_log_enabled());
    assert_eq!(default_log_level(), "INFO");
    assert_eq!(default_address(), "localhost");
    assert_eq!(default_port(), 4500);
    assert_eq!(default_max_ws(), 20);
    assert_eq!(f64::from_bits(default_push_interval().bits), 1.0);
    assert_eq!(f64::from_bits(default_probe_timeout().bits), 5.0);
    assert_eq!(default_probes().len(), 2);
}

#[test]
fn loading_settings_ends_with_the_file_or_the_defaults() {
    assert!(matches!(read_settings(SettingsEvent::FileMissing), SettingsAction::CreateDir));
    assert!(matches!(read_settings(SettingsEvent::FilePresent), SettingsAction::ReadFile));
    assert!(matches!(read_settings(SettingsEvent::FileRead), SettingsAction::Parse));
    match read_settings(SettingsEvent::DirReady) {
        SettingsAction::Write(s) => assert!(is_default(&s)),
        _ => panic!("nothing to write"),
    }
    for event in [
        SettingsEvent::DirFailed,
        SettingsEvent::DefaultsHandled,
        SettingsEvent::FileUnreadable,
        SettingsEvent::Malformed,
    ] {
        match read_settings(event) {
            SettingsAction::Use(s) => assert!(is_default(&s)),
            _ => panic!("no settings"),
        }
    }
    let mut own = Settings::default();
    own.port_number = 9999;
    match read_settings(SettingsEvent::Parsed(own)) {
        SettingsAction::Use(s) => assert_eq!(s.port_number, 9999),
        _ => panic!("no settings"),
    }
}

#[test]
fn old_settings_move_only_into_an_empty_place() {
    assert!(migrate_legacy(false, true));
    assert!(!migrate_legacy(true, true));
    assert!(!migrate_legacy(false, false));
    assert!(!migrate_legacy(true, false));
}

#[test]
fn paths_lie_below_home() {
    let home = || Some(PathBuf::from("/home/me"));
    assert_eq!(settings_dir_in(home()).parts, vec![".vigil-collector"]);
    assert_eq!(settings_file_in(home()).parts, vec![".vigil-collector", "settings.json"]);
    assert_eq!(settings_file_in(home()).home, home());
    assert_eq!(legacy_settings_dir_in(None).parts, vec![".psmonitor"]);
    assert!(legacy_settings_dir_in(None).home.is_none());
    assert_eq!(log_dir_in(home()).parts, vec![".vigil-collector-logs"]);
    assert_eq!(log_file_path_in(home()).parts, vec![".vigil-collector-logs", "app.log"]);
}

#[test]
fn an_unknown_home_is_the_working_directory() {
    let known = settings_file_in(Some(PathBuf::from("/home/me")));
    assert_eq!(known.segments(), vec![".vigil-collector", "settings.json"]);
    assert_eq!(settings_file_in(None).segments(), vec![".", ".vigil-collector", "settings.json"]);
}

#[test]
fn a_second_run_uses_what_the_first_wrote() {
    let written = match read_settings(SettingsEvent::DirReady) {
        SettingsAction::Write(s) => s,
        _ => panic!("nothing to write"),
    };
    match read_settings(SettingsEvent::Parsed(written)) {
        SettingsAction::Use(s) => assert!(is_default(&s)),
        _ => panic!("no settings"),
    }
}

#[test]
fn home_is_that_of_the_user() {
    assert_eq!(settings_dir().home, dirs::home_dir());
    assert_eq!(settings_file().home, dirs::home_dir());
    assert_eq!(legacy_settings_dir().home, dirs::home_dir());
    assert_eq!(log_dir().home, dirs::home_dir());
    assert_eq!(log_file_path().home, dirs::home_dir());
    assert_eq!(settings_file().parts, vec![".vigil-collector", "settings.json"]);
    assert_eq!(log_file_path().parts, vec![".vigil-collector-logs", "app.log"]);
}

#[test]
fn tags_are_trimmed_and_never_empty() {
    let tags = |list: &str| {
        let mut c = cli();
        c.hub_tags = Some(list.to_string());
        c.parse_tags()
    };
    assert_eq!(tags("prod,web"), vec!["prod", "web"]);
    assert_eq!(tags(" prod , web\t,,\u{3000}db "), vec!["prod", "web", "db"]);
    assert_eq!(tags("two words"), vec!["two words"]);
    assert!(tags("").is_empty());
    assert!(tags(" , ,").is_empty());
    assert!(cli().parse_tags().is_empty());
}

#[test]
fn joined_tags_come_back() {
    let own = vec!["a".to_string(), "b c".to_string(), "d".to_string()];
    let mut c = cli();
    c.hub_tags = Some(own.join(","));
    assert_eq!(c.parse_tags(), own);
}

#[test]
fn levels_become_directives() {
    assert_eq!(directive_for("DEBUG", true), "vigil_collector=debug");
    assert_eq!(directive_for("WARNING", true), "vigil_collector=warn");
    assert_eq!(directive_for("WARN", true), "vigil_collector=warn");
    assert_eq!(directive_for("ERROR", true), "vigil_collector=error");
    assert_eq!(directive_for("INFO", true), "vigil_collector=info");
    assert_eq!(directive_for("debug", true), "vigil_collector=info");
    assert_eq!(directive_for("DEBUG", false), "off");
}

fn directive(filter: Filter) -> &'static str {
    match filter {
        Filter::Environment => "env",
        Filter::Directive(d) => d,
    }
}

#[test]
fn levels_are_read_in_any_case() {
    assert_eq!(directive(init("debug", true, false)), "vigil_collector=debug");
    assert_eq!(directive(init("Warning", true, false)), "vigil_collector=warn");
    assert_eq!(directive(init("warnıng", true, false)), "vigil_collector=warn");
    assert_eq!(directive(init("error", true, false)), "vigil_collector=error");
    assert_eq!(directive(init("loud", true, false)), "vigil_collector=info");
}

#[test]
fn the_environment_overrides_the_level_but_not_the_mute() {
    assert_eq!(directive(init("error", true, true)), "env");
    assert_eq!(directive(init("error", false, true)), "off");
    assert_eq!(directive(init("error", false, false)), "off");
    assert_eq!(directive(filter_for("ERROR", true, false)), "vigil_collector=error");
}

#[test]
fn arguments_override_settings() {
    let settings = Settings::default();
    let mut args = cli();
    assert_eq!(effective_address(&args, &settings), "localhost");
    assert_eq!(effective_port(&args, &settings), 4500);
    args.address = "0.0.0.0".to_string();
    args.port = 80;
    assert_eq!(effective_address(&args, &settings), "0.0.0.0");
    assert_eq!(effective_port(&args, &settings), 80);
}

#[test]
fn addresses_have_a_source() {
    assert!(resolve_addr("localhost", false) == AddrSource::Loopback);
    assert!(resolve_addr("127.0.0.1", true) == AddrSource::Literal);
    assert!(resolve_addr("example.org", false) == AddrSource::Lookup);
}

#[test]
fn the_hub_needs_url_and_key() {
    let mode = |hub: Option<&str>, key: Option<&str>| {
        let mut c = cli();
        c.hub = hub.map(|s| s.to_string());
        c.hub_key = key.map(|s| s.to_string());
        match hub_mode(&c) {
            HubMode::Push { url, key } => format!("push {url} {key}"),
            HubMode::Incomplete => "incomplete".to_string(),
            HubMode::Off => "off".to_string(),
        }
    };
    assert_eq!(mode(Some("wss://h"), Some("k")), "push wss://h k");
    assert_eq!(mode(Some("wss://h"), None), "incomplete");
    assert_eq!(mode(None, Some("k")), "incomplete");
    assert_eq!(mode(Some(""), None), "incomplete");
    assert_eq!(mode(Some(""), Some("k")), "off");
    assert_eq!(mode(Some("wss://h"), Some("")), "off");
    assert_eq!(mode(None, None), "off");
}
