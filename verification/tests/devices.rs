use batwatch::actions::{ActionManager, ActionMode, ActionSpec, ActionTrigger, BatteryState, ScriptResolver};
use batwatch::devices::{
    describe_state, is_battery, power_source_line, process_status_update, DeviceStates, KnownDevices,
};
use batwatch::support_files::{
    icon_dir_in, install_plan, should_write, systemd_user_dir_in, BundleItem, InstallReport, InstallStep,
};
use batwatch::paths::{join_path, path_is_absolute};
use batwatch::text::{char_is_whitespace, eq_ignore_ascii_case, label_for_path, trimmed};

#[test]
fn describe_state_reports_known_values() {
    assert_eq!("charging", describe_state(1));
    assert_eq!("discharging", describe_state(2));
    assert_eq!("unknown", describe_state(999));
}

#[test]
fn describe_state_all_codes() {
    assert_eq!("empty", describe_state(3));
    assert_eq!("full", describe_state(4));
    assert_eq!("pending charge", describe_state(5));
    assert_eq!("pending discharge", describe_state(6));
    assert_eq!("unknown", describe_state(0));
}

#[test]
fn labels_and_text() {
    assert_eq!(label_for_path("/org/freedesktop/UPower/devices/battery_BAT0"), "battery_BAT0");
    assert_eq!(label_for_path("plain"), "plain");
    assert_eq!(label_for_path("/ends/"), "");
    assert_eq!(trimmed("  x y \n"), Some("x y"));
    assert_eq!(trimmed(" \t "), None);
    assert_eq!(trimmed("\u{a0}z\u{2003}"), Some("z"));
    assert!(eq_ignore_ascii_case("AlWays", "always"));
    assert!(!eq_ignore_ascii_case("always!", "always"));
    assert!(!eq_ignore_ascii_case("Ä", "ä"));
    assert_eq!(power_source_line(true), "Power: on battery");
    assert_eq!(power_source_line(false), "Power: plugged in");
    assert!(is_battery(2));
    assert!(!is_battery(1));
}

fn manager() -> ActionManager {
    ActionManager::from_specs(
        vec![ActionSpec {
            mode: ActionMode::Charging,
            trigger: ActionTrigger::StateEnter,
            command: "/bin/plugged".to_string(),
        }],
        ScriptResolver::new(None),
    )
}

#[test]
fn previous_report_is_tracked_per_device() {
    let mut states = DeviceStates::new();
    let mut actions = manager();
    let c = BatteryState::Charging;
    let d = BatteryState::Discharging;
    // first report: nothing known, so the state counts as just entered
    assert_eq!(process_status_update("/bat0", 50, c, &mut states, &mut actions).len(), 1);
    assert!(process_status_update("/bat0", 51, c, &mut states, &mut actions).is_empty());
    // another device has its own history
    assert_eq!(process_status_update("/bat1", 40, c, &mut states, &mut actions).len(), 1);
    assert!(process_status_update("/bat0", 52, d, &mut states, &mut actions).is_empty());
    assert_eq!(process_status_update("/bat0", 52, c, &mut states, &mut actions).len(), 1);
    // forgetting a device clears its history
    states.remove("/bat1");
    assert_eq!(process_status_update("/bat1", 41, c, &mut states, &mut actions).len(), 1);
}

#[test]
fn no_actions_means_no_tracking() {
    let mut states = DeviceStates::new();
    let mut empty = ActionManager::from_specs(Vec::new(), ScriptResolver::new(None));
    assert!(process_status_update("/bat0", 50, BatteryState::Charging, &mut states, &mut empty).is_empty());
    let mut actions = manager();
    assert_eq!(
        process_status_update("/bat0", 50, BatteryState::Charging, &mut states, &mut actions).len(),
        1
    );
}

#[test]
fn known_devices_are_watched_once() {
    let mut known = KnownDevices::new();
    assert!(known.insert("/bat0"));
    assert!(!known.insert("/bat0"));
    assert!(known.insert("/bat1"));
    assert!(known.remove("/bat0"));
    assert!(!known.remove("/bat0"));
    assert!(known.insert("/bat0"));
}

#[test]
fn install_decisions_and_report() {
    assert!(should_write(false, false));
    assert!(should_write(true, true));
    assert!(!should_write(true, false));
    let mut report = InstallReport::new("/c/batwatch".to_string());
    report.record_written("/c/batwatch/batwatch.toml".to_string());
    report.record_skipped("/c/batwatch/scripts/full.sh".to_string());
    assert_eq!(report.written, vec!["/c/batwatch/batwatch.toml"]);
    assert_eq!(report.skipped, vec!["/c/batwatch/scripts/full.sh"]);
    assert_eq!(systemd_user_dir_in("/home/u/.config/batwatch"), "/home/u/.config/systemd/user");
    assert_eq!(icon_dir_in("/home/u/.local/share"), "/home/u/.local/share/icons/hicolor/scalable/apps");
}

#[test]
fn whitespace_matches_std_on_every_char() {
    for code in 0u32..=0x10FFFF {
        if let Some(c) = char::from_u32(code) {
            assert_eq!(char_is_whitespace(c), c.is_whitespace(), "U+{code:04X}");
        }
    }
}

#[test]
fn join_matches_std_path_join() {
    let cases = [
        ("/a", "b"),
        ("/a/", "b"),
        ("", "b"),
        ("a", ""),
        ("/a", "/b"),
        ("a/b", "c/d"),
        ("/", "x"),
        ("a//", "./y"),
    ];
    for (base, part) in cases {
        let expected = std::path::Path::new(base).join(part).to_string_lossy().into_owned();
        assert_eq!(join_path(base, part), expected, "{base:?} + {part:?}");
    }
    assert!(path_is_absolute("/x"));
    assert!(!path_is_absolute("x/y"));
    assert!(!path_is_absolute(""));
}

fn step_summary(step: &InstallStep) -> (String, Option<BundleItem>, bool) {
    match step {
        InstallStep::CreateDir(dir) => (dir.clone(), None, false),
        InstallStep::Write { path, item, executable } => (path.clone(), Some(*item), *executable),
    }
}

#[test]
fn install_plan_lists_targets_in_order() {
    let steps = install_plan(
        "/c/batwatch",
        &vec!["a.sh".to_string(), "b.sh".to_string()],
        &vec!["bat.svg".to_string()],
        &vec!["batwatch.svg".to_string()],
        "batwatch.service",
        Some("/d/icons".to_string()),
        Some("/c/systemd/user".to_string()),
    );
    let got: Vec<_> = steps.iter().map(step_summary).collect();
    let s = |p: &str, i: Option<BundleItem>, x: bool| (p.to_string(), i, x);
    assert_eq!(
        got,
        vec![
            s("/c/batwatch", None, false),
            s("/c/batwatch/batwatch.toml", Some(BundleItem::DefaultConfig), false),
            s("/c/batwatch/scripts", None, false),
            s("/c/batwatch/scripts/a.sh", Some(BundleItem::Script(0)), true),
            s("/c/batwatch/scripts/b.sh", Some(BundleItem::Script(1)), true),
            s("/c/batwatch/assets", None, false),
            s("/c/batwatch/assets/bat.svg", Some(BundleItem::Asset(0)), false),
            s("/d/icons", None, false),
            s("/d/icons/batwatch.svg", Some(BundleItem::Icon(0)), false),
            s("/c/systemd/user", None, false),
            s("/c/systemd/user/batwatch.service", Some(BundleItem::SystemdUnit), false),
        ]
    );
    let bare = install_plan("/c", &vec![], &vec![], &vec!["i".to_string()], "u", None, None);
    assert_eq!(bare.len(), 4);
}
