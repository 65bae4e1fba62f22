use batwatch::actions::{
    check_script_header, check_script_metadata, crossed_down, crossed_up, has_shebang, is_elf,
    mode_argument, script_not_found_message, Action, ActionManager, ActionMode, ActionSpec,
    ActionTrigger, BatteryState, ScriptResolver, ScriptSource, StatusEvent,
};
use std::path::Path;

fn event(percentage: u8, previous: Option<u8>, state: BatteryState, previous_state: Option<BatteryState>) -> StatusEvent {
    StatusEvent {
        device_path: "/org/freedesktop/UPower/devices/battery_BAT0".to_string(),
        percentage,
        previous_percentage: previous,
        state,
        previous_state,
    }
}

fn spec(mode: ActionMode, trigger: ActionTrigger, command: &str) -> ActionSpec {
    ActionSpec { mode, trigger, command: command.to_string() }
}

#[test]
fn always_trigger_fires_for_every_update() {
    let action = Action {
        id: 0,
        mode: ActionMode::Discharging,
        trigger: ActionTrigger::Always,
        script: "noop".to_string(),
    };
    let mut event = StatusEvent {
        device_path: "/dev".into(),
        percentage: 50,
        previous_percentage: Some(51),
        state: BatteryState::Discharging,
        previous_state: Some(BatteryState::Discharging),
    };
    assert!(action.should_fire(&event, false));
    event.percentage = 49;
    assert!(action.should_fire(&event, true));
}

#[test]
fn threshold_crossing_detects_skipped_percent() {
    assert!(crossed_down(Some(60), 40, 50));
    assert!(crossed_up(Some(40), 60, 50));
    assert!(!crossed_down(Some(40), 60, 50));
    assert!(!crossed_up(Some(60), 40, 50));
}

#[test]
fn first_reading_counts_as_crossing() {
    assert!(crossed_up(None, 50, 50));
    assert!(!crossed_up(None, 49, 50));
    assert!(crossed_down(None, 50, 50));
    assert!(!crossed_down(None, 51, 50));
    // landing exactly on the level crosses it; staying on it does not
    assert!(crossed_down(Some(51), 50, 50));
    assert!(!crossed_down(Some(50), 50, 50));
}

#[test]
fn battery_state_codes() {
    assert_eq!(BatteryState::from_code(1), BatteryState::Charging);
    assert_eq!(BatteryState::from_code(2), BatteryState::Discharging);
    assert_eq!(BatteryState::from_code(4), BatteryState::Other(4));
    assert!(BatteryState::Charging.matches_mode(ActionMode::Charging));
    assert!(!BatteryState::Charging.matches_mode(ActionMode::Discharging));
    assert!(!BatteryState::Other(4).matches_mode(ActionMode::Charging));
}

fn manager(specs: Vec<ActionSpec>) -> ActionManager {
    // absolute commands resolve to themselves without touching the disk
    ActionManager::from_specs(specs, ScriptResolver::new(None))
}

#[test]
fn threshold_fires_once_per_discharge_and_rearms() {
    let mut m = manager(vec![spec(ActionMode::Discharging, ActionTrigger::Threshold(20), "/bin/warn")]);
    let d = BatteryState::Discharging;
    assert!(m.handle_event(event(25, Some(26), d, Some(d))).is_empty());
    let fired = m.handle_event(event(19, Some(25), d, Some(d)));
    assert_eq!(fired.len(), 1);
    assert_eq!(fired[0].script, "/bin/warn");
    assert_eq!(fired[0].percentage, 19);
    assert_eq!(fired[0].mode, ActionMode::Discharging);
    assert_eq!(fired[0].action_id, 0);
    // still below and even crossing again: stays quiet within the stay
    assert!(m.handle_event(event(18, Some(19), d, Some(d))).is_empty());
    assert!(m.handle_event(event(15, Some(25), d, Some(d))).is_empty());
    // plugging in re-arms it
    assert!(m.handle_event(event(30, Some(15), BatteryState::Charging, Some(d))).is_empty());
    let fired = m.handle_event(event(20, Some(30), d, Some(BatteryState::Charging)));
    assert_eq!(fired.len(), 1);
}

#[test]
fn state_enter_fires_on_entry_only() {
    let mut m = manager(vec![spec(ActionMode::Charging, ActionTrigger::StateEnter, "/bin/plugged")]);
    let c = BatteryState::Charging;
    let d = BatteryState::Discharging;
    assert_eq!(m.handle_event(event(50, None, c, None)).len(), 1);
    assert!(m.handle_event(event(51, Some(50), c, Some(c))).is_empty());
    assert!(m.handle_event(event(50, Some(51), d, Some(c))).is_empty());
    assert_eq!(m.handle_event(event(50, Some(50), c, Some(d))).len(), 1);
}

#[test]
fn launches_follow_action_order_and_mode() {
    let mut m = manager(vec![
        spec(ActionMode::Charging, ActionTrigger::Always, "/bin/a"),
        spec(ActionMode::Discharging, ActionTrigger::Always, "/bin/b"),
        spec(ActionMode::Charging, ActionTrigger::Threshold(100), "/bin/full"),
    ]);
    let c = BatteryState::Charging;
    let fired = m.handle_event(event(100, Some(99), c, Some(c)));
    let scripts: Vec<&str> = fired.iter().map(|l| l.script.as_str()).collect();
    assert_eq!(scripts, vec!["/bin/a", "/bin/full"]);
    assert_eq!(fired[1].action_id, 2);
    assert!(m.handle_event(event(100, Some(100), BatteryState::Other(4), Some(c))).is_empty());
}

#[test]
fn empty_manager_does_nothing() {
    let mut m = manager(Vec::new());
    assert!(m.is_empty());
    assert!(m.handle_event(event(10, Some(90), BatteryState::Discharging, None)).is_empty());
    assert!(!manager(vec![spec(ActionMode::Charging, ActionTrigger::Always, "/x")]).is_empty());
}

#[test]
fn script_checks() {
    assert!(has_shebang(b"#!/bin/sh"));
    assert!(!has_shebang(b"#"));
    assert!(is_elf(b"\x7FELF\0\0"));
    assert!(!is_elf(b"\x7FEL"));
    assert!(check_script_header(b"#!/b").is_ok());
    assert!(check_script_header(b"\x7FELF").is_ok());
    assert_eq!(check_script_header(b"echo").unwrap_err(), "missing shebang and not an ELF binary");
    assert_eq!(check_script_header(b"").unwrap_err(), "file is empty");
    assert_eq!(check_script_metadata(false, 0o755).unwrap_err(), "not a regular file");
    assert_eq!(check_script_metadata(true, 0o644).unwrap_err(), "missing executable bit (chmod +x)");
    assert!(check_script_metadata(true, 0o744).is_ok());
    assert_eq!(script_not_found_message("/tmp/x.sh"), "script /tmp/x.sh not found");
    assert_eq!(mode_argument(ActionMode::Charging), "charging");
    assert_eq!(mode_argument(ActionMode::Discharging), "discharging");
}

#[test]
fn resolver_candidates_in_order() {
    let resolver = ScriptResolver::new(Some("/cfg".to_string()))
        .with_search_dirs(vec!["/usr/bin".to_string(), "/bin".to_string()]);
    assert_eq!(
        resolver.candidates("warn.sh"),
        vec!["/cfg/warn.sh", "/cfg/scripts/warn.sh", "/usr/bin/warn.sh", "/bin/warn.sh"]
    );
    assert_eq!(resolver.resolve_with_probes("warn.sh", &vec![false, false, true]), "/usr/bin/warn.sh");
    assert_eq!(resolver.resolve_with_probes("warn.sh", &vec![true, true]), "/cfg/warn.sh");
    assert_eq!(resolver.resolve_with_probes("warn.sh", &vec![false]), "warn.sh");
    assert_eq!(resolver.resolve_with_probes("/abs/warn.sh", &vec![true]), "/abs/warn.sh");
    assert!(ScriptResolver::new(None).candidates("x").is_empty());
}

#[test]
fn resolver_falls_back_to_literal_command() {
    let resolver = ScriptResolver::new(Some("/nonexistent-batwatch-dir".to_string()));
    assert_eq!(resolver.resolve("no-such-script.sh"), "no-such-script.sh");
    assert_eq!(resolver.resolve("/abs/no-such"), "/abs/no-such");
}

/// Creates a directory of exactly this name under `parent`.
fn named_dir(parent: &Path, name: &str) -> tempfile::TempDir {
    tempfile::Builder::new().prefix(name).rand_bytes(0).tempdir_in(parent).unwrap()
}

/// Creates a file of exactly this name under `parent`.
fn named_file(parent: &Path, name: &str) -> tempfile::NamedTempFile {
    tempfile::Builder::new().prefix(name).rand_bytes(0).tempfile_in(parent).unwrap()
}

#[test]
fn resolves_relative_paths_against_config_dir() {
    let temp = tempfile::tempdir().unwrap();
    let config_dir = named_dir(temp.path(), "batwatch");
    let scripts_dir = named_dir(config_dir.path(), "scripts");
    let script = named_file(scripts_dir.path(), "ppd-performance.sh");
    let script_path = config_dir.path().join("scripts").join("ppd-performance.sh");
    assert_eq!(script.path(), script_path);
    let resolver = ScriptResolver::new(Some(config_dir.path().to_string_lossy().into_owned()));

    let resolved = resolver.resolve("scripts/ppd-performance.sh");
    assert_eq!(Path::new(&resolved), script_path);
}

#[test]
fn resolves_bare_names_under_scripts_dir() {
    let temp = tempfile::tempdir().unwrap();
    let config_dir = named_dir(temp.path(), "batwatch");
    let scripts_dir = named_dir(config_dir.path(), "scripts");
    let script = named_file(scripts_dir.path(), "warn-low.sh");
    let script_path = config_dir.path().join("scripts").join("warn-low.sh");
    assert_eq!(script.path(), script_path);
    let resolver = ScriptResolver::new(Some(config_dir.path().to_string_lossy().into_owned()));

    let resolved = resolver.resolve("warn-low.sh");
    assert_eq!(Path::new(&resolved), script_path);
}

#[test]
fn resolves_through_search_dirs() {
    let temp = tempfile::tempdir().unwrap();
    let bin = named_dir(temp.path(), "bin");
    let _tool = named_file(bin.path(), "tool.sh");
    let resolver = ScriptResolver::new(None)
        .with_search_dirs(vec!["/nonexistent-batwatch".to_string(), bin.path().to_string_lossy().into_owned()]);
    assert_eq!(Path::new(&resolver.resolve("tool.sh")), bin.path().join("tool.sh"));
}

#[test]
fn resolution_tells_its_rule() {
    let resolver = ScriptResolver::new(Some("/cfg".to_string()))
        .with_search_dirs(vec!["/usr/bin".to_string()]);
    let r = resolver.explain_with_probes("w.sh", &vec![true]);
    assert_eq!((r.command.as_str(), r.path.as_str(), r.source), ("w.sh", "/cfg/w.sh", ScriptSource::ConfigDir));
    let r = resolver.explain_with_probes("w.sh", &vec![false, true]);
    assert_eq!((r.path.as_str(), r.source), ("/cfg/scripts/w.sh", ScriptSource::ScriptsDir));
    let r = resolver.explain_with_probes("w.sh", &vec![false, false, true]);
    assert_eq!((r.path.as_str(), r.source), ("/usr/bin/w.sh", ScriptSource::SearchPath));
    let r = resolver.explain_with_probes("w.sh", &vec![false, false, false]);
    assert_eq!((r.path.as_str(), r.source), ("w.sh", ScriptSource::Literal));
    let r = resolver.explain_with_probes("/opt/w.sh", &vec![]);
    assert_eq!((r.path.as_str(), r.source), ("/opt/w.sh", ScriptSource::Explicit));
    let only_path = ScriptResolver::new(None).with_search_dirs(vec!["/bin".to_string()]);
    assert_eq!(only_path.explain_with_probes("sh", &vec![true]).source, ScriptSource::SearchPath);
}

#[test]
fn from_specs_explained_reports_each_action() {
    let (m, resolved) = ActionManager::from_specs_explained(
        vec![
            spec(ActionMode::Charging, ActionTrigger::Always, "/bin/a"),
            spec(ActionMode::Charging, ActionTrigger::Always, "no-such-batwatch-hook"),
        ],
        ScriptResolver::new(None),
    );
    assert!(!m.is_empty());
    assert_eq!(resolved.len(), 2);
    assert_eq!(resolved[0].source, ScriptSource::Explicit);
    assert_eq!(resolved[1].source, ScriptSource::Literal);
    assert_eq!(resolved[1].path, "no-such-batwatch-hook");
    let temp = tempfile::tempdir().unwrap();
    let bin = named_dir(temp.path(), "bin");
    let _tool = named_file(bin.path(), "hook.sh");
    let resolver = ScriptResolver::new(None).with_search_dirs(vec![bin.path().to_string_lossy().into_owned()]);
    let r = resolver.resolve_explained("hook.sh");
    assert_eq!(r.source, ScriptSource::SearchPath);
    assert_eq!(Path::new(&r.path), bin.path().join("hook.sh"));
}
