use batwatch::actions::{ActionMode, ActionTrigger};
use batwatch::config::{
    config_path_in, load_config, search_paths_from, ActionSections, ActionWhen, AdvancedConfig,
    Config, ConfigAttempt, HookEntry, HookGroup, DEFAULT_POLL_INTERVAL_SECS,
    DEFAULT_PROXY_TIMEOUT_SECS, MIN_POLL_INTERVAL_SECS, MIN_PROXY_TIMEOUT_SECS,
};
use std::time::Duration;

fn entry(script: &str, when: Option<ActionWhen>) -> HookEntry {
    HookEntry { script: script.to_string(), when }
}

fn group(named: Vec<(&str, HookEntry)>) -> HookGroup {
    HookGroup {
        script: None,
        named: named.into_iter().map(|(k, v)| (k.to_string(), v)).collect(),
        when: None,
    }
}

fn config_with(charging: HookGroup, discharging: HookGroup) -> Config {
    Config::new(
        AdvancedConfig {
            poll_interval_secs: DEFAULT_POLL_INTERVAL_SECS,
            proxy_timeout_secs: DEFAULT_PROXY_TIMEOUT_SECS,
        },
        ActionSections { charging, discharging },
    )
}

#[test]
fn config_clamps_intervals() {
    let config = Config::default();
    assert_eq!(DEFAULT_POLL_INTERVAL_SECS, config.poll_interval_secs());
    assert_eq!(DEFAULT_PROXY_TIMEOUT_SECS, config.proxy_timeout_secs());

    let config = Config::with_intervals_for_test(0, 0);
    assert_eq!(MIN_POLL_INTERVAL_SECS, config.poll_interval_secs());
    assert_eq!(MIN_PROXY_TIMEOUT_SECS, config.proxy_timeout_secs());

    let config = Config::with_intervals_for_test(10, 15);
    assert_eq!(10, config.poll_interval_secs());
    assert_eq!(15, config.proxy_timeout_secs());
}

#[test]
fn intervals_as_durations() {
    let config = Config::with_intervals_for_test(0, 7);
    assert_eq!(config.poll_interval(), Duration::from_secs(1));
    assert_eq!(config.proxy_timeout(), Duration::from_secs(7));
}

#[test]
fn action_config_parses_triggers() {
    // [charging.toast] when = "always"; [charging.log]; [charging.once] when = "once";
    // [discharging.warn] when = 42 -- named hooks in key order
    let cfg = config_with(
        group(vec![
            ("log", entry("echo log", None)),
            ("once", entry("echo once", Some(ActionWhen::Text("once".to_string())))),
            ("toast", entry("echo toast", Some(ActionWhen::Text("always".to_string())))),
        ]),
        group(vec![("warn", entry("echo warn", Some(ActionWhen::Number(42))))]),
    );

    let mut charging = Vec::new();
    let mut discharging = Vec::new();
    for spec in cfg.action_specs_checked().expect("valid hooks") {
        match spec.mode {
            ActionMode::Charging => charging.push(spec.trigger),
            ActionMode::Discharging => discharging.push(spec.trigger),
        }
    }

    charging.sort_by_key(|t| match t {
        ActionTrigger::Always => 0,
        ActionTrigger::StateEnter => 1,
        ActionTrigger::Threshold(_) => 2,
    });

    assert_eq!(
        vec![ActionTrigger::Always, ActionTrigger::StateEnter, ActionTrigger::StateEnter],
        charging
    );
    assert_eq!(vec![ActionTrigger::Threshold(42)], discharging);
}

#[test]
fn invalid_when_reports_error() {
    // [charging.bad] script = "echo hi" when = "later"
    let cfg = config_with(
        group(vec![("bad", entry("echo hi", Some(ActionWhen::Text("later".to_string()))))]),
        group(vec![]),
    );
    let err = cfg.action_specs_checked().expect_err("should error");
    assert!(err.contains("unsupported `when"));
    assert_eq!(err, "unsupported `when = \"later\"`");
}

#[test]
fn specs_keep_order_trim_and_inherit_when() {
    let charging = HookGroup {
        script: Some("  /bin/top  ".to_string()),
        named: vec![
            ("a".to_string(), entry("\t/bin/a\n", None)),
            ("b".to_string(), entry("/bin/b", Some(ActionWhen::Text("ALWAYS".to_string())))),
        ],
        when: Some(ActionWhen::Number(80)),
    };
    let discharging = HookGroup {
        script: Some("   ".to_string()),
        named: vec![("c".to_string(), entry("/bin/c", Some(ActionWhen::Text("Once".to_string()))))],
        when: None,
    };
    let specs = config_with(charging, discharging).action_specs_checked().unwrap();
    let got: Vec<(ActionMode, ActionTrigger, &str)> =
        specs.iter().map(|s| (s.mode, s.trigger, s.command.as_str())).collect();
    assert_eq!(
        got,
        vec![
            (ActionMode::Charging, ActionTrigger::Threshold(80), "/bin/top"),
            (ActionMode::Charging, ActionTrigger::Threshold(80), "/bin/a"),
            (ActionMode::Charging, ActionTrigger::Always, "/bin/b"),
            (ActionMode::Discharging, ActionTrigger::StateEnter, "/bin/c"),
        ]
    );
}

#[test]
fn blank_named_script_is_an_error() {
    let cfg = config_with(group(vec![]), group(vec![("empty", entry("  \u{a0} ", None))]));
    assert_eq!(cfg.action_specs_checked().unwrap_err(), "Hook `empty` is missing a script");
}

#[test]
fn default_config_has_no_hooks() {
    assert!(Config::default().action_specs_checked().unwrap().is_empty());
}

#[test]
fn search_paths_in_order() {
    let paths = search_paths_from(
        Some("/etc/custom.toml".to_string()),
        Some("/home/u/.config".to_string()),
        Some("/opt/bw/bin/batwatch".to_string()),
        Some("/work".to_string()),
    );
    assert_eq!(
        paths,
        vec![
            "/etc/custom.toml",
            "/home/u/.config/batwatch/batwatch.toml",
            "/home/u/.config/batwatch.toml",
            "/opt/bw/bin/batwatch.toml",
            "/work/batwatch.toml",
        ]
    );
    assert!(search_paths_from(None, None, None, None).is_empty());
    assert_eq!(config_path_in("/c"), "/c/batwatch/batwatch.toml");
}

#[test]
fn missing_config_defaults_are_used() {
    let loaded = load_config(vec![
        ConfigAttempt { path: "/nonexistent/batwatch.toml".to_string(), config: None },
    ]);
    assert_eq!(5, loaded.config.poll_interval_secs());
    assert_eq!(5, loaded.config.proxy_timeout_secs());
    assert!(loaded.origin_dir.is_none());
}

#[test]
fn first_found_config_wins() {
    let loaded = load_config(vec![
        ConfigAttempt { path: "/a/batwatch.toml".to_string(), config: None },
        ConfigAttempt {
            path: "/b/batwatch.toml".to_string(),
            config: Some(Config::with_intervals_for_test(9, 9)),
        },
        ConfigAttempt {
            path: "/c/batwatch.toml".to_string(),
            config: Some(Config::with_intervals_for_test(3, 3)),
        },
    ]);
    assert_eq!(loaded.config.poll_interval_secs(), 9);
    assert_eq!(loaded.origin_dir.as_deref(), Some("/b"));
}
