# batwatch

BatWatch watches UPower battery events over DBus and runs hook scripts when a
battery starts charging, starts discharging, or crosses a configured
percentage.

- `src/` is the verified library:
  - `actions.rs`: battery states, triggers, the per-action firing rules, the
    action manager and script resolution; laws on how often actions fire.
  - `config.rs`: the configuration model, how hook groups become action
    specs, where the configuration file is looked for and which one is used.
  - `devices.rs`: per-device history, watched devices, and how one report
    reaches the actions.
  - `support_files.rs`: where support files are installed and the report of
    an installation.
  - `text.rs`, `paths.rs`: string and path helpers.
- `app/` is the program around it: DBus, reading the TOML file, launching
  scripts on threads, writing files.
- `tests/` exercises the library on concrete values.

Collections. The per-device history (`DeviceStates`) and the set of watched
devices (`KnownDevices`) are keyed by device path, a string. With string keys
Verus gives `HashMap`/`HashSet` no usable contract, so both are held as a `Vec`
with a type invariant that no path occurs twice, and their views are a `Map`
and a `Set`. The per-action memory is a `Vec` indexed by action position. The
named hooks of a `[charging]`/`[discharging]` table are a `Vec` in ascending,
duplicate-free name order (`HookGroup::well_formed`), as a TOML table read into
a `BTreeMap` gives them.

Paths are held as UTF-8 strings; a path that is not valid UTF-8 is converted
lossily where it enters the library.
