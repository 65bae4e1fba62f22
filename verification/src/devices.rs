//! What is remembered of each battery between updates, which devices are
//! watched, and how one status update of a device reaches the actions.
use crate::actions::{
    launches_upto, ActionManager, BatteryState, EventView, ScriptLaunch, StatusEvent, action_step,
};
use vstd::prelude::*;

verus! {

/// UPower's device type of a battery.
pub const BATTERY_DEVICE_TYPE: u32 = 2;

/// Whether a UPower device type is a battery.
pub fn is_battery(device_type: u32) -> (b: bool)
    ensures
        b == (device_type == BATTERY_DEVICE_TYPE),
{
    device_type == BATTERY_DEVICE_TYPE
}

/// The name of a UPower state code, as shown in status lines.
pub open spec fn state_name(state: u32) -> Seq<char> {
    if state == 1 {
        "charging"@
    } else if state == 2 {
        "discharging"@
    } else if state == 3 {
        "empty"@
    } else if state == 4 {
        "full"@
    } else if state == 5 {
        "pending charge"@
    } else if state == 6 {
        "pending discharge"@
    } else {
        "unknown"@
    }
}

/// The name of a UPower state code.
pub fn describe_state(state: u32) -> (name: &'static str)
    ensures
        name@ == state_name(state),
{
    match state {
        1 => "charging",
        2 => "discharging",
        3 => "empty",
        4 => "full",
        5 => "pending charge",
        6 => "pending discharge",
        _ => "unknown",
    }
}

/// The line shown when UPower reports the power source.
pub fn power_source_line(on_battery: bool) -> (line: &'static str)
    ensures
        line@ == if on_battery {
            "Power: on battery"@
        } else {
            "Power: plugged in"@
        },
{
    if on_battery {
        "Power: on battery"
    } else {
        "Power: plugged in"
    }
}

/// What was last reported for one device.
#[derive(Clone, Copy, Debug, PartialEq, Eq, Structural)]
pub struct DeviceStatus {
    pub last_state: Option<BatteryState>,
    pub last_percentage: Option<u8>,
}

/// Nothing reported yet.
pub open spec fn unknown_status() -> DeviceStatus {
    DeviceStatus { last_state: None, last_percentage: None }
}

/// What is known of `path` in `statuses`.
pub open spec fn status_of(statuses: Map<Seq<char>, DeviceStatus>, path: Seq<char>) -> DeviceStatus {
    if statuses.contains_key(path) {
        statuses[path]
    } else {
        unknown_status()
    }
}

/// No key occurs twice.
pub open spec fn keys_distinct(keys: Seq<Seq<char>>) -> bool {
    forall|i: int, j: int| 0 <= i < j < keys.len() ==> #[trigger] keys[i] != #[trigger] keys[j]
}

/// Among distinct keys, a key has one position.
proof fn lemma_key_position_unique(keys: Seq<Seq<char>>, i: int, j: int)
    requires
        keys_distinct(keys),
        0 <= i < keys.len(),
        0 <= j < keys.len(),
        keys[i] == keys[j],
    ensures
        i == j,
{
    if i < j {
        assert(keys[i] != keys[j]);
    } else if j < i {
        assert(keys[j] != keys[i]);
    }
}

/// Adding a key not yet present keeps the keys distinct.
proof fn lemma_keys_distinct_push(keys: Seq<Seq<char>>, key: Seq<char>)
    requires
        keys_distinct(keys),
        !keys.contains(key),
    ensures
        keys_distinct(keys.push(key)),
{
    let pushed = keys.push(key);
    assert forall|i: int, j: int| 0 <= i < j < pushed.len() implies #[trigger] pushed[i] != #[trigger] pushed[j] by {
        if j == keys.len() {
            if pushed[i] == key {
                assert(keys[i] == key);
            }
        } else {
            assert(keys[i] != keys[j]);
        }
    }
}

/// Removing a key keeps the others distinct, and it is no longer present.
proof fn lemma_keys_distinct_remove(keys: Seq<Seq<char>>, i: int)
    requires
        keys_distinct(keys),
        0 <= i < keys.len(),
    ensures
        keys_distinct(keys.remove(i)),
        forall|k: Seq<char>| #[trigger] keys.remove(i).contains(k) == (keys.contains(k) && k != keys[i]),
{
    let rest = keys.remove(i);
    assert forall|a: int, b: int| 0 <= a < b < rest.len() implies #[trigger] rest[a] != #[trigger] rest[b] by {
        let oa = if a < i { a } else { a + 1 };
        let ob = if b < i { b } else { b + 1 };
        assert(rest[a] == keys[oa] && rest[b] == keys[ob]);
        assert(keys[oa] != keys[ob]);
    }
    assert forall|k: Seq<char>| #[trigger] rest.contains(k) == (keys.contains(k) && k != keys[i]) by {
        if rest.contains(k) {
            let j = choose|j: int| 0 <= j < rest.len() && rest[j] == k;
            let oj = if j < i { j } else { j + 1 };
            assert(keys[oj] == k);
            if k == keys[i] {
                lemma_key_position_unique(keys, oj, i);
            }
        }
        if keys.contains(k) && k != keys[i] {
            let oj = choose|oj: int| 0 <= oj < keys.len() && keys[oj] == k;
            let j = if oj < i { oj } else { oj - 1 };
            assert(rest[j] == k);
        }
    }
}

/// The last reported status of each device, by device path.
pub struct DeviceStates {
    entries: Vec<(String, DeviceStatus)>,
}

/// The device paths of the entries, in order.
pub open spec fn entry_keys(entries: Seq<(String, DeviceStatus)>) -> Seq<Seq<char>> {
    entries.map_values(|e: (String, DeviceStatus)| e.0@)
}

/// The statuses by device path of entries with distinct paths.
pub open spec fn entries_map(entries: Seq<(String, DeviceStatus)>) -> Map<Seq<char>, DeviceStatus> {
    Map::new(
        |k: Seq<char>| entry_keys(entries).contains(k),
        |k: Seq<char>| entries[entry_keys(entries).index_of(k)].1,
    )
}

/// In an entry list with distinct paths, the entry at `i` is what its path
/// maps to.
proof fn lemma_entry_lookup(entries: Seq<(String, DeviceStatus)>, i: int)
    requires
        keys_distinct(entry_keys(entries)),
        0 <= i < entries.len(),
    ensures
        entries_map(entries).contains_key(entries[i].0@),
        entries_map(entries)[entries[i].0@] == entries[i].1,
{
    let keys = entry_keys(entries);
    assert(keys[i] == entries[i].0@);
    assert(keys.contains(entries[i].0@));
    let j = keys.index_of(entries[i].0@);
    lemma_key_position_unique(keys, i, j);
}

impl DeviceStates {
    /// No device path occurs twice.
    #[verifier::type_invariant]
    spec fn well_formed(self) -> bool {
        keys_distinct(entry_keys(self.entries@))
    }

    /// The statuses by device path.
    pub closed spec fn statuses(&self) -> Map<Seq<char>, DeviceStatus> {
        entries_map(self.entries@)
    }

    /// Nothing known of any device.
    pub fn new() -> (states: Self)
        ensures
            states.statuses() == Map::<Seq<char>, DeviceStatus>::empty(),
    {
        let states = DeviceStates { entries: Vec::new() };
        assert(states.statuses() =~= Map::<Seq<char>, DeviceStatus>::empty());
        states
    }

    /// The position of `path`, if it is known.
    fn find(&self, path: &str) -> (index: Option<usize>)
        ensures
            match index {
                Some(i) => i < self.entries@.len() && self.entries@[i as int].0@ == path@
                    && self.statuses().contains_key(path@) && self.statuses()[path@]
                    == self.entries@[i as int].1,
                None => !self.statuses().contains_key(path@),
            },
    {
        proof {
            use_type_invariant(self);
        }
        let ghost keys = entry_keys(self.entries@);
        let target = String::from_str(path);
        let n = self.entries.len();
        let mut i: usize = 0;
        while i < n
            invariant
                target@ == path@,
                keys_distinct(keys),
                keys == entry_keys(self.entries@),
                n == self.entries@.len(),
                0 <= i <= n,
                forall|j: int| 0 <= j < i ==> keys[j] != path@,
            decreases n - i,
        {
            if self.entries[i].0 == target {
                proof {
                    lemma_entry_lookup(self.entries@, i as int);
                }
                return Some(i);
            }
            assert(keys[i as int] == self.entries@[i as int].0@);
            i = i + 1;
        }
        proof {
            if keys.contains(path@) {
                let j = choose|j: int| 0 <= j < keys.len() && keys[j] == path@;
                assert(keys[j] != path@);
            }
        }
        None
    }

    /// Records a new report for `path` and returns what was known of it
    /// before.
    pub fn record(&mut self, path: &str, percentage: u8, state: BatteryState) -> (previous: DeviceStatus)
        ensures
            previous == status_of(old(self).statuses(), path@),
            final(self).statuses() == old(self).statuses().insert(
                path@,
                DeviceStatus { last_state: Some(state), last_percentage: Some(percentage) },
            ),
    {
        proof {
            use_type_invariant(&*self);
        }
        let current = DeviceStatus { last_state: Some(state), last_percentage: Some(percentage) };
        let ghost old_entries = self.entries@;
        let ghost old_keys = entry_keys(old_entries);
        let ghost old_map = self.statuses();
        let found = self.find(path);
        let mut taken = DeviceStates { entries: Vec::new() };
        std::mem::swap(self, &mut taken);
        let DeviceStates { mut entries } = taken;
        let previous = match found {
            Some(i) => {
                let previous = entries[i].1;
                let key = entries[i].0.clone();
                entries.set(i, (key, current));
                proof {
                    let keys = entry_keys(entries@);
                    assert(keys =~= old_keys);
                    assert forall|k: Seq<char>| #[trigger] keys.contains(k) implies entries_map(entries@)[k]
                        == old_map.insert(path@, current)[k] by {
                        let j = keys.index_of(k);
                        if k == path@ {
                            lemma_key_position_unique(keys, i as int, j);
                        } else {
                            assert(j != i);
                        }
                    }
                    assert(entries_map(entries@) =~= old_map.insert(path@, current));
                }
                previous
            },
            None => {
                entries.push((String::from_str(path), current));
                proof {
                    let keys = entry_keys(entries@);
                    assert(keys =~= old_keys.push(path@));
                    lemma_keys_distinct_push(old_keys, path@);
                    let n = old_entries.len() as int;
                    assert(keys[n] == path@);
                    assert forall|k: Seq<char>| #[trigger] keys.contains(k) == (old_keys.contains(k) || k == path@) by {
                        if keys.contains(k) && k != path@ {
                            let j = choose|j: int| 0 <= j < keys.len() && keys[j] == k;
                            assert(old_keys[j] == k);
                        }
                        if old_keys.contains(k) {
                            let j = choose|j: int| 0 <= j < old_keys.len() && old_keys[j] == k;
                            assert(keys[j] == k);
                        }
                    }
                    assert forall|k: Seq<char>| #[trigger] keys.contains(k) implies entries_map(entries@)[k]
                        == old_map.insert(path@, current)[k] by {
                        let j = keys.index_of(k);
                        if k == path@ {
                            lemma_key_position_unique(keys, n, j);
                        } else {
                            let oj = old_keys.index_of(k);
                            assert(keys[oj] == k);
                            lemma_key_position_unique(keys, oj, j);
                        }
                    }
                    assert(entries_map(entries@) =~= old_map.insert(path@, current));
                }
                unknown()
            },
        };
        let mut rebuilt = DeviceStates { entries };
        std::mem::swap(self, &mut rebuilt);
        previous
    }

    /// Forgets `path`.
    pub fn remove(&mut self, path: &str)
        ensures
            final(self).statuses() == old(self).statuses().remove(path@),
    {
        proof {
            use_type_invariant(&*self);
        }
        let ghost old_entries = self.entries@;
        let ghost old_keys = entry_keys(old_entries);
        let ghost old_map = self.statuses();
        let found = self.find(path);
        let mut taken = DeviceStates { entries: Vec::new() };
        std::mem::swap(self, &mut taken);
        let DeviceStates { mut entries } = taken;
        match found {
            Some(i) => {
                entries.remove(i);
                proof {
                    let keys = entry_keys(entries@);
                    assert(keys =~= old_keys.remove(i as int));
                    lemma_keys_distinct_remove(old_keys, i as int);
                    assert(old_keys[i as int] == path@);
                    assert forall|k: Seq<char>| #[trigger] keys.contains(k) implies entries_map(entries@)[k]
                        == old_map.remove(path@)[k] by {
                        let j = keys.index_of(k);
                        let oj = if j < i { j } else { j + 1 };
                        assert(entries@[j] == old_entries[oj]);
                        assert(old_keys[oj] == k);
                        lemma_key_position_unique(old_keys, oj, old_keys.index_of(k));
                    }
                    assert(entries_map(entries@) =~= old_map.remove(path@));
                }
            },
            None => {
                assert(old_map.remove(path@) =~= old_map);
            },
        }
        let mut rebuilt = DeviceStates { entries };
        std::mem::swap(self, &mut rebuilt);
    }
}

/// Nothing reported yet.
fn unknown() -> (status: DeviceStatus)
    ensures
        status == unknown_status(),
{
    DeviceStatus { last_state: None, last_percentage: None }
}

/// The devices being watched, by path.
pub struct KnownDevices {
    paths: Vec<String>,
}

/// The views of a list of paths.
pub open spec fn path_keys(paths: Seq<String>) -> Seq<Seq<char>> {
    paths.map_values(|p: String| p@)
}

impl KnownDevices {
    /// No path occurs twice.
    #[verifier::type_invariant]
    spec fn well_formed(self) -> bool {
        keys_distinct(path_keys(self.paths@))
    }

    /// The watched device paths.
    pub closed spec fn paths(&self) -> Set<Seq<char>> {
        Set::new(|k: Seq<char>| path_keys(self.paths@).contains(k))
    }

    /// No device watched.
    pub fn new() -> (devices: Self)
        ensures
            devices.paths() == Set::<Seq<char>>::empty(),
    {
        let devices = KnownDevices { paths: Vec::new() };
        assert(devices.paths() =~= Set::<Seq<char>>::empty());
        devices
    }

    /// The position of `path`, if it is watched.
    fn find(&self, path: &str) -> (index: Option<usize>)
        ensures
            match index {
                Some(i) => i < self.paths@.len() && self.paths@[i as int]@ == path@,
                None => !self.paths().contains(path@),
            },
    {
        let ghost keys = path_keys(self.paths@);
        let target = String::from_str(path);
        let n = self.paths.len();
        let mut i: usize = 0;
        while i < n
            invariant
                target@ == path@,
                keys == path_keys(self.paths@),
                n == self.paths@.len(),
                0 <= i <= n,
                forall|j: int| 0 <= j < i ==> keys[j] != path@,
            decreases n - i,
        {
            if self.paths[i] == target {
                return Some(i);
            }
            assert(keys[i as int] == self.paths@[i as int]@);
            i = i + 1;
        }
        proof {
            if keys.contains(path@) {
                let j = choose|j: int| 0 <= j < keys.len() && keys[j] == path@;
                assert(keys[j] != path@);
            }
        }
        None
    }

    /// Starts watching `path`; `false` if it was already watched.
    pub fn insert(&mut self, path: &str) -> (added: bool)
        ensures
            added == !old(self).paths().contains(path@),
            final(self).paths() == old(self).paths().insert(path@),
    {
        proof {
            use_type_invariant(&*self);
        }
        let ghost old_keys = path_keys(self.paths@);
        let ghost old_set = self.paths();
        match self.find(path) {
            Some(i) => {
                assert(old_keys[i as int] == path@);
                assert(old_set.contains(path@));
                assert(old_set.insert(path@) =~= old_set);
                false
            },
            None => {
                let mut taken = KnownDevices { paths: Vec::new() };
                std::mem::swap(self, &mut taken);
                let KnownDevices { mut paths } = taken;
                paths.push(String::from_str(path));
                proof {
                    let keys = path_keys(paths@);
                    assert(keys =~= old_keys.push(path@));
                    lemma_keys_distinct_push(old_keys, path@);
                    assert forall|k: Seq<char>| #[trigger] keys.contains(k) == old_set.insert(path@).contains(k) by {
                        if keys.contains(k) && k != path@ {
                            let j = choose|j: int| 0 <= j < keys.len() && keys[j] == k;
                            assert(old_keys[j] == k);
                        }
                        if old_keys.contains(k) {
                            let j = choose|j: int| 0 <= j < old_keys.len() && old_keys[j] == k;
                            assert(keys[j] == k);
                        }
                        if k == path@ {
                            assert(keys[old_keys.len() as int] == k);
                        }
                    }
                    lemma_keys_distinct_push(old_keys, path@);
                }
                let mut rebuilt = KnownDevices { paths };
                std::mem::swap(self, &mut rebuilt);
                assert(self.paths() =~= old_set.insert(path@));
                true
            },
        }
    }

    /// Stops watching `path`; `false` if it was not watched.
    pub fn remove(&mut self, path: &str) -> (removed: bool)
        ensures
            removed == old(self).paths().contains(path@),
            final(self).paths() == old(self).paths().remove(path@),
    {
        proof {
            use_type_invariant(&*self);
        }
        let ghost old_keys = path_keys(self.paths@);
        let ghost old_set = self.paths();
        match self.find(path) {
            Some(i) => {
                let mut taken = KnownDevices { paths: Vec::new() };
                std::mem::swap(self, &mut taken);
                let KnownDevices { mut paths } = taken;
                paths.remove(i);
                proof {
                    assert(old_keys[i as int] == path@);
                    assert(old_set.contains(path@));
                    assert(path_keys(paths@) =~= old_keys.remove(i as int));
                    lemma_keys_distinct_remove(old_keys, i as int);
                }
                let mut rebuilt = KnownDevices { paths };
                std::mem::swap(self, &mut rebuilt);
                assert(self.paths() =~= old_set.remove(path@));
                true
            },
            None => {
                assert(old_set.remove(path@) =~= old_set);
                false
            },
        }
    }
}

/// The event a report makes, given what was known of its device.
pub open spec fn event_for(
    statuses: Map<Seq<char>, DeviceStatus>,
    path: Seq<char>,
    percentage: u8,
    state: BatteryState,
) -> EventView {
    EventView {
        device_path: path,
        percentage,
        previous_percentage: status_of(statuses, path).last_percentage,
        state,
        previous_state: status_of(statuses, path).last_state,
    }
}

/// Handles one report of a device: when actions are configured, the report
/// becomes an event carrying the device's previously reported percentage and
/// state, is recorded as the device's latest status, and goes to the actions;
/// the scripts it fires are returned. With no action configured nothing
/// happens.
pub fn process_status_update(
    path: &str,
    percentage: u8,
    state: BatteryState,
    device_states: &mut DeviceStates,
    actions: &mut ActionManager,
) -> (launches: Vec<ScriptLaunch>)
    ensures
        final(actions).action_list() == old(actions).action_list(),
        old(actions).action_list().len() == 0 ==> {
            &&& final(device_states).statuses() == old(device_states).statuses()
            &&& final(actions).triggered() == old(actions).triggered()
            &&& launches@.len() == 0
        },
        old(actions).action_list().len() > 0 ==> {
            let event = event_for(old(device_states).statuses(), path@, percentage, state);
            &&& final(device_states).statuses() == old(device_states).statuses().insert(
                path@,
                DeviceStatus { last_state: Some(state), last_percentage: Some(percentage) },
            )
            &&& final(actions).triggered().len() == old(actions).triggered().len()
            &&& forall|i: int|
                0 <= i < old(actions).action_list().len() ==> #[trigger] final(actions).triggered()[i]
                    == action_step(
                    old(actions).action_list()[i].mode,
                    old(actions).action_list()[i].trigger,
                    event,
                    old(actions).triggered()[i],
                ).1
            &&& launches@.map_values(|l: ScriptLaunch| l@) == launches_upto(
                old(actions).action_list(),
                old(actions).triggered(),
                event,
                old(actions).action_list().len(),
            )
        },
{
    if actions.is_empty() {
        return Vec::new();
    }
    let previous = device_states.record(path, percentage, state);
    let event = StatusEvent {
        device_path: String::from_str(path),
        percentage,
        previous_percentage: previous.last_percentage,
        state,
        previous_state: previous.last_state,
    };
    actions.handle_event(event)
}


/// After a report of a device, the next event of that device carries that
/// report as its previous state and percentage, and the events of other
/// devices are unchanged.
pub proof fn law_previous_is_last_report(
    statuses: Map<Seq<char>, DeviceStatus>,
    path: Seq<char>,
    percentage: u8,
    state: BatteryState,
    other: Seq<char>,
    next_percentage: u8,
    next_state: BatteryState,
)
    ensures
        ({
            let after = statuses.insert(
                path,
                DeviceStatus { last_state: Some(state), last_percentage: Some(percentage) },
            );
            &&& event_for(after, path, next_percentage, next_state).previous_state == Some(state)
            &&& event_for(after, path, next_percentage, next_state).previous_percentage == Some(percentage)
            &&& other != path ==> event_for(after, other, next_percentage, next_state) == event_for(
                statuses,
                other,
                next_percentage,
                next_state,
            )
        }),
{
}

/// A device never seen before, or forgotten since, reports its first event
/// with nothing previous.
pub proof fn law_first_report_has_no_history(
    statuses: Map<Seq<char>, DeviceStatus>,
    path: Seq<char>,
    percentage: u8,
    state: BatteryState,
)
    ensures
        event_for(statuses.remove(path), path, percentage, state).previous_state is None,
        event_for(statuses.remove(path), path, percentage, state).previous_percentage is None,
{
}

} // verus!
