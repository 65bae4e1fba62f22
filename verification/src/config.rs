//! The hook configuration: poll and proxy intervals, and the `[charging]` /
//! `[discharging]` hook groups that become action specs; where the
//! configuration file is looked for, and which found file is used.
use crate::actions::{ActionMode, ActionSpec, ActionTrigger};
use crate::paths::{join_path, joined_path, opt_view, parent_of_path, parent_path};
use crate::text::{eq_ignore_ascii_case, spec_eq_ignore_ascii_case, spec_trimmed, trimmed};
use std::time::Duration;
use vstd::prelude::*;

verus! {

pub const DEFAULT_POLL_INTERVAL_SECS: u64 = 5;

pub const DEFAULT_PROXY_TIMEOUT_SECS: u64 = 5;

pub const MIN_POLL_INTERVAL_SECS: u64 = 1;

pub const MIN_PROXY_TIMEOUT_SECS: u64 = 1;

pub const DEFAULT_CONFIG_FILENAME: &'static str = "batwatch.toml";

/// A hook's `when`: a percentage threshold, or `"always"` / `"once"`.
#[derive(Debug)]
pub enum ActionWhen {
    Number(u8),
    Text(String),
}

/// A named hook such as `[charging.toast]`.
#[derive(Debug)]
pub struct HookEntry {
    pub script: String,
    pub when: Option<ActionWhen>,
}

/// A `[charging]` or `[discharging]` table: an optional unnamed hook, the
/// named hooks in key order, and a `when` that named hooks without their own
/// inherit.
#[derive(Debug)]
pub struct HookGroup {
    pub script: Option<String>,
    pub named: Vec<(String, HookEntry)>,
    pub when: Option<ActionWhen>,
}

/// The two hook groups.
#[derive(Debug)]
pub struct ActionSections {
    pub charging: HookGroup,
    pub discharging: HookGroup,
}

/// The `[advanced]` table, as configured (before clamping).
#[derive(Debug)]
pub struct AdvancedConfig {
    pub poll_interval_secs: u64,
    pub proxy_timeout_secs: u64,
}

/// The whole configuration.
#[derive(Debug)]
pub struct Config {
    pub advanced: AdvancedConfig,
    pub sections: ActionSections,
}

/// A hook group with no hook in it.
pub open spec fn is_empty_group(g: HookGroup) -> bool {
    g.script is None && g.named@.len() == 0 && g.when is None
}

/// The configuration used when no file is found.
pub open spec fn is_default_config(c: Config) -> bool {
    &&& c.advanced.poll_interval_secs == DEFAULT_POLL_INTERVAL_SECS
    &&& c.advanced.proxy_timeout_secs == DEFAULT_PROXY_TIMEOUT_SECS
    &&& is_empty_group(c.sections.charging)
    &&& is_empty_group(c.sections.discharging)
}

/// The error for a named hook whose script is blank.
pub open spec fn missing_script_message(name: Seq<char>) -> Seq<char> {
    "Hook `"@ + name + "` is missing a script"@
}

/// The error for a `when` text that is neither `always` nor `once`.
pub open spec fn unsupported_when_message(value: Seq<char>) -> Seq<char> {
    "unsupported `when = \""@ + value + "\"`"@
}

/// The trigger a `when` value denotes.
pub open spec fn spec_trigger_from_when(when: ActionWhen) -> Result<ActionTrigger, Seq<char>> {
    match when {
        ActionWhen::Number(level) => Ok(ActionTrigger::Threshold(level)),
        ActionWhen::Text(value) => if spec_eq_ignore_ascii_case(value@, "always"@) {
            Ok(ActionTrigger::Always)
        } else if spec_eq_ignore_ascii_case(value@, "once"@) {
            Ok(ActionTrigger::StateEnter)
        } else {
            Err(unsupported_when_message(value@))
        },
    }
}

/// The action spec for a command and an optional `when` (no `when` means
/// "once on entering the state").
pub open spec fn spec_build_spec(command: Seq<char>, when: Option<ActionWhen>, mode: ActionMode) -> Result<
    (ActionMode, ActionTrigger, Seq<char>),
    Seq<char>,
> {
    match when {
        None => Ok((mode, ActionTrigger::StateEnter, command)),
        Some(w) => match spec_trigger_from_when(w) {
            Ok(trigger) => Ok((mode, trigger, command)),
            Err(e) => Err(e),
        },
    }
}

/// A named hook's own `when`, else its group's.
pub open spec fn effective_when(own: Option<ActionWhen>, group: Option<ActionWhen>) -> Option<ActionWhen> {
    match own {
        Some(w) => Some(w),
        None => group,
    }
}

/// The spec of one named hook.
pub open spec fn spec_named_hook(
    name: Seq<char>,
    entry: HookEntry,
    group_when: Option<ActionWhen>,
    mode: ActionMode,
) -> Result<(ActionMode, ActionTrigger, Seq<char>), Seq<char>> {
    match spec_trimmed(entry.script@) {
        Some(command) => spec_build_spec(command, effective_when(entry.when, group_when), mode),
        None => Err(missing_script_message(name)),
    }
}

/// The specs of the named hooks, in order; the first failing hook's error.
pub open spec fn spec_named_hooks(
    named: Seq<(String, HookEntry)>,
    group_when: Option<ActionWhen>,
    mode: ActionMode,
) -> Result<Seq<(ActionMode, ActionTrigger, Seq<char>)>, Seq<char>>
    decreases named.len(),
{
    if named.len() == 0 {
        Ok(Seq::empty())
    } else {
        match spec_named_hooks(named.drop_last(), group_when, mode) {
            Err(e) => Err(e),
            Ok(before) => match spec_named_hook(named.last().0@, named.last().1, group_when, mode) {
                Err(e) => Err(e),
                Ok(spec) => Ok(before.push(spec)),
            },
        }
    }
}

/// Once a prefix of the named hooks fails, all of them fail with that error.
proof fn lemma_named_error_persists(
    named: Seq<(String, HookEntry)>,
    group_when: Option<ActionWhen>,
    mode: ActionMode,
    k: int,
)
    requires
        0 <= k <= named.len(),
        spec_named_hooks(named.take(k), group_when, mode) is Err,
    ensures
        spec_named_hooks(named, group_when, mode) == spec_named_hooks(named.take(k), group_when, mode),
    decreases named.len(),
{
    if named.len() > k {
        assert(named.drop_last().take(k) =~= named.take(k));
        lemma_named_error_persists(named.drop_last(), group_when, mode, k);
    } else {
        assert(named.take(k) =~= named);
    }
}

/// The specs of a group: its unnamed hook (when its script is not blank),
/// then its named hooks.
pub open spec fn spec_group_specs(group: HookGroup, mode: ActionMode) -> Result<
    Seq<(ActionMode, ActionTrigger, Seq<char>)>,
    Seq<char>,
> {
    let unnamed: Result<Seq<(ActionMode, ActionTrigger, Seq<char>)>, Seq<char>> = match group.script {
        Some(s) => match spec_trimmed(s@) {
            Some(command) => match spec_build_spec(command, group.when, mode) {
                Ok(spec) => Ok(seq![spec]),
                Err(e) => Err(e),
            },
            None => Ok(Seq::empty()),
        },
        None => Ok(Seq::empty()),
    };
    match unnamed {
        Err(e) => Err(e),
        Ok(first) => match spec_named_hooks(group.named@, group.when, mode) {
            Err(e) => Err(e),
            Ok(rest) => Ok(first + rest),
        },
    }
}

/// The specs of a configuration: the charging hooks, then the discharging
/// hooks; the first error met in that order.
pub open spec fn spec_action_specs(config: Config) -> Result<
    Seq<(ActionMode, ActionTrigger, Seq<char>)>,
    Seq<char>,
> {
    match spec_group_specs(config.sections.charging, ActionMode::Charging) {
        Err(e) => Err(e),
        Ok(charging) => match spec_group_specs(config.sections.discharging, ActionMode::Discharging) {
            Err(e) => Err(e),
            Ok(discharging) => Ok(charging + discharging),
        },
    }
}

/// The views of a list of specs.
pub open spec fn specs_view(specs: Seq<ActionSpec>) -> Seq<(ActionMode, ActionTrigger, Seq<char>)> {
    specs.map_values(|s: ActionSpec| s@)
}

/// A configured interval, raised to its minimum.
pub open spec fn clamp_to_min(value: u64, min: u64) -> u64 {
    if value < min {
        min
    } else {
        value
    }
}

/// The trigger `when` denotes.
fn trigger_from_when(when: &ActionWhen, _mode: ActionMode) -> (trigger: Result<ActionTrigger, String>)
    ensures
        match trigger {
            Ok(t) => spec_trigger_from_when(*when) == Ok::<ActionTrigger, Seq<char>>(t),
            Err(e) => spec_trigger_from_when(*when) == Err::<ActionTrigger, Seq<char>>(e@),
        },
{
    match when {
        ActionWhen::Number(level) => Ok(ActionTrigger::Threshold(*level)),
        ActionWhen::Text(value) => {
            if eq_ignore_ascii_case(value.as_str(), "always") {
                Ok(ActionTrigger::Always)
            } else if eq_ignore_ascii_case(value.as_str(), "once") {
                Ok(ActionTrigger::StateEnter)
            } else {
                let mut message = String::from_str("unsupported `when = \"");
                message.append(value.as_str());
                message.append("\"`");
                Err(message)
            }
        },
    }
}

/// The action spec for `command` with an optional `when`.
fn build_spec(command: &str, when: Option<&ActionWhen>, mode: ActionMode) -> (spec: Result<ActionSpec, String>)
    ensures
        match spec {
            Ok(s) => spec_build_spec(command@, match when { Some(w) => Some(*w), None => None }, mode)
                == Ok::<(ActionMode, ActionTrigger, Seq<char>), Seq<char>>(s@),
            Err(e) => spec_build_spec(command@, match when { Some(w) => Some(*w), None => None }, mode)
                == Err::<(ActionMode, ActionTrigger, Seq<char>), Seq<char>>(e@),
        },
{
    let trigger = match when {
        Some(w) => match trigger_from_when(w, mode) {
            Ok(t) => t,
            Err(e) => return Err(e),
        },
        None => ActionTrigger::StateEnter,
    };
    Ok(ActionSpec { mode, trigger, command: String::from_str(command) })
}

impl HookGroup {
    /// The specs of this group's hooks for `mode`: the unnamed hook first,
    /// then the named ones in order; a named hook with a blank script is an
    /// error.
    pub fn to_specs(&self, mode: ActionMode) -> (specs: Result<Vec<ActionSpec>, String>)
        requires
            self.well_formed(),
        ensures
            match specs {
                Ok(v) => spec_group_specs(*self, mode) == Ok::<
                    Seq<(ActionMode, ActionTrigger, Seq<char>)>,
                    Seq<char>,
                >(specs_view(v@)),
                Err(e) => spec_group_specs(*self, mode) == Err::<
                    Seq<(ActionMode, ActionTrigger, Seq<char>)>,
                    Seq<char>,
                >(e@),
            },
    {
        let mut specs: Vec<ActionSpec> = Vec::new();
        if let Some(script) = &self.script {
            if let Some(command) = trimmed(script.as_str()) {
                let when = match &self.when {
                    Some(w) => Some(w),
                    None => None,
                };
                match build_spec(command, when, mode) {
                    Ok(spec) => specs.push(spec),
                    Err(e) => return Err(e),
                }
            }
        }
        let ghost first = specs_view(specs@);
        let n = self.named.len();
        let mut i: usize = 0;
        assert(self.named@.take(0) =~= Seq::<(String, HookEntry)>::empty());
        assert(specs_view(specs@).skip(first.len() as int) =~= Seq::empty());
        assert(specs_view(specs@).take(first.len() as int) =~= first);
        while i < n
            invariant
                n == self.named@.len(),
                0 <= i <= n,
                first.len() <= 1,
                spec_named_hooks(self.named@.take(i as int), self.when, mode) == Ok::<
                    Seq<(ActionMode, ActionTrigger, Seq<char>)>,
                    Seq<char>,
                >(specs_view(specs@).skip(first.len() as int)),
                specs_view(specs@).take(first.len() as int) == first,
                specs@.len() >= first.len(),
                match self.script {
                    Some(s) => match spec_trimmed(s@) {
                        Some(command) => spec_build_spec(command, self.when, mode) == Ok::<
                            (ActionMode, ActionTrigger, Seq<char>),
                            Seq<char>,
                        >(first[0]) && first.len() == 1,
                        None => first.len() == 0,
                    },
                    None => first.len() == 0,
                },
            decreases n - i,
        {
            let name = &self.named[i].0;
            let entry = &self.named[i].1;
            assert(self.named@.take(i + 1).drop_last() =~= self.named@.take(i as int));
            assert(self.named@.take(i + 1).last() == self.named@[i as int]);
            match trimmed(entry.script.as_str()) {
                Some(command) => {
                    let when = match &entry.when {
                        Some(w) => Some(w),
                        None => match &self.when {
                            Some(w) => Some(w),
                            None => None,
                        },
                    };
                    match build_spec(command, when, mode) {
                        Ok(spec) => {
                            let ghost before = specs@;
                            specs.push(spec);
                            assert(specs_view(specs@) =~= specs_view(before).push(spec@));
                            assert(specs_view(specs@).skip(first.len() as int) =~= specs_view(
                                before,
                            ).skip(first.len() as int).push(spec@));
                            assert(specs_view(specs@).take(first.len() as int) =~= specs_view(
                                before,
                            ).take(first.len() as int));
                        },
                        Err(e) => {
                            proof {
                                lemma_named_error_persists(self.named@, self.when, mode, i + 1);
                            }
                            return Err(e);
                        },
                    }
                },
                None => {
                    let mut message = String::from_str("Hook `");
                    message.append(name.as_str());
                    message.append("` is missing a script");
                    proof {
                        lemma_named_error_persists(self.named@, self.when, mode, i + 1);
                    }
                    return Err(message);
                },
            }
            i = i + 1;
        }
        assert(self.named@.take(n as int) =~= self.named@);
        proof {
            if first.len() == 1 {
                assert(first =~= seq![first[0]]);
            } else {
                assert(first =~= Seq::empty());
            }
        }
        assert(specs_view(specs@) =~= first + specs_view(specs@).skip(first.len() as int));
        Ok(specs)
    }
}

/// What `Duration::from_secs` yields for `secs`.
pub uninterp spec fn duration_of_secs(secs: u64) -> Duration;

/// Calls `Duration::from_secs`. Claimed: the result is `duration_of_secs(secs)`.
#[verifier::external_body]
fn seconds(secs: u64) -> (d: Duration)
    ensures
        d == duration_of_secs(secs),
{
    Duration::from_secs(secs)
}

impl Default for Config {
    fn default() -> (config: Self)
        ensures
            is_default_config(config),
    {
        Config {
            advanced: AdvancedConfig {
                poll_interval_secs: DEFAULT_POLL_INTERVAL_SECS,
                proxy_timeout_secs: DEFAULT_PROXY_TIMEOUT_SECS,
            },
            sections: ActionSections {
                charging: HookGroup { script: None, named: Vec::new(), when: None },
                discharging: HookGroup { script: None, named: Vec::new(), when: None },
            },
        }
    }
}

impl Config {
    /// A configuration of these parts.
    pub fn new(advanced: AdvancedConfig, sections: ActionSections) -> (config: Self)
        ensures
            config.advanced == advanced,
            config.sections == sections,
    {
        Config { advanced, sections }
    }

    /// The default configuration with the given raw intervals.
    pub fn with_intervals_for_test(poll_secs: u64, proxy_secs: u64) -> (config: Self)
        ensures
            config.advanced.poll_interval_secs == poll_secs,
            config.advanced.proxy_timeout_secs == proxy_secs,
            is_empty_group(config.sections.charging),
            is_empty_group(config.sections.discharging),
    {
        let base = Config::default();
        Config {
            advanced: AdvancedConfig { poll_interval_secs: poll_secs, proxy_timeout_secs: proxy_secs },
            ..base
        }
    }

    /// Seconds between polls, at least [`MIN_POLL_INTERVAL_SECS`].
    pub fn poll_interval_secs(&self) -> (secs: u64)
        ensures
            secs == clamp_to_min(self.advanced.poll_interval_secs, MIN_POLL_INTERVAL_SECS),
    {
        if self.advanced.poll_interval_secs < MIN_POLL_INTERVAL_SECS {
            MIN_POLL_INTERVAL_SECS
        } else {
            self.advanced.poll_interval_secs
        }
    }

    /// Seconds allowed for a DBus call, at least [`MIN_PROXY_TIMEOUT_SECS`].
    pub fn proxy_timeout_secs(&self) -> (secs: u64)
        ensures
            secs == clamp_to_min(self.advanced.proxy_timeout_secs, MIN_PROXY_TIMEOUT_SECS),
    {
        if self.advanced.proxy_timeout_secs < MIN_PROXY_TIMEOUT_SECS {
            MIN_PROXY_TIMEOUT_SECS
        } else {
            self.advanced.proxy_timeout_secs
        }
    }

    /// The poll interval as a duration.
    pub fn poll_interval(&self) -> (d: Duration)
        ensures
            d == duration_of_secs(
                clamp_to_min(self.advanced.poll_interval_secs, MIN_POLL_INTERVAL_SECS),
            ),
    {
        seconds(self.poll_interval_secs())
    }

    /// The DBus call timeout as a duration.
    pub fn proxy_timeout(&self) -> (d: Duration)
        ensures
            d == duration_of_secs(
                clamp_to_min(self.advanced.proxy_timeout_secs, MIN_PROXY_TIMEOUT_SECS),
            ),
    {
        seconds(self.proxy_timeout_secs())
    }

    /// The action specs of all hooks: charging hooks first, then discharging
    /// hooks; or the first configuration error.
    pub fn action_specs_checked(&self) -> (specs: Result<Vec<ActionSpec>, String>)
        requires
            self.sections.charging.well_formed(),
            self.sections.discharging.well_formed(),
        ensures
            match specs {
                Ok(v) => spec_action_specs(*self) == Ok::<
                    Seq<(ActionMode, ActionTrigger, Seq<char>)>,
                    Seq<char>,
                >(specs_view(v@)),
                Err(e) => spec_action_specs(*self) == Err::<
                    Seq<(ActionMode, ActionTrigger, Seq<char>)>,
                    Seq<char>,
                >(e@),
            },
    {
        let mut specs = match self.sections.charging.to_specs(ActionMode::Charging) {
            Ok(v) => v,
            Err(e) => return Err(e),
        };
        let mut rest = match self.sections.discharging.to_specs(ActionMode::Discharging) {
            Ok(v) => v,
            Err(e) => return Err(e),
        };
        let ghost a = specs@;
        let ghost b = rest@;
        specs.append(&mut rest);
        assert(specs_view(specs@) =~= specs_view(a) + specs_view(b));
        Ok(specs)
    }
}


/// Calls `dirs::config_dir`. Nothing is claimed of the result: it depends on
/// the environment (`$XDG_CONFIG_HOME`, `$HOME`).
#[verifier::external_body]
fn user_config_dir() -> (dir: Option<String>) {
    match dirs::config_dir() {
        Some(p) => Some(p.to_string_lossy().into_owned()),
        None => None,
    }
}

/// This program's directory under the user configuration directory `base`.
pub open spec fn spec_config_dir_in(base: Seq<char>) -> Seq<char> {
    joined_path(base, "batwatch"@)
}

/// The configuration file under the user configuration directory `base`.
pub open spec fn spec_config_path_in(base: Seq<char>) -> Seq<char> {
    joined_path(spec_config_dir_in(base), DEFAULT_CONFIG_FILENAME@)
}

/// The directory of an executable: its parent, or the path itself when it
/// has none.
pub open spec fn spec_exe_dir(exe: Seq<char>) -> Seq<char> {
    match parent_of_path(exe) {
        Some(p) => p,
        None => exe,
    }
}

/// The one-element list of an optional path.
pub open spec fn opt_list(p: Option<Seq<char>>) -> Seq<Seq<char>> {
    match p {
        Some(v) => seq![v],
        None => Seq::empty(),
    }
}

/// Where the configuration is looked for, in order: the override, the file
/// in this program's configuration directory, the file directly in the user
/// configuration directory, the file beside the executable, the file in the
/// working directory.
pub open spec fn spec_search_paths(
    env_override: Option<Seq<char>>,
    user_config: Option<Seq<char>>,
    exe: Option<Seq<char>>,
    cwd: Option<Seq<char>>,
) -> Seq<Seq<char>> {
    opt_list(env_override) + match user_config {
        Some(base) => seq![spec_config_path_in(base), joined_path(base, DEFAULT_CONFIG_FILENAME@)],
        None => Seq::empty(),
    } + match exe {
        Some(e) => seq![joined_path(spec_exe_dir(e), DEFAULT_CONFIG_FILENAME@)],
        None => Seq::empty(),
    } + match cwd {
        Some(c) => seq![joined_path(c, DEFAULT_CONFIG_FILENAME@)],
        None => Seq::empty(),
    }
}

/// This program's directory under the user configuration directory `base`.
pub fn config_dir_in(base: &str) -> (dir: String)
    ensures
        dir@ == spec_config_dir_in(base@),
{
    join_path(base, "batwatch")
}

/// The configuration file under the user configuration directory `base`.
pub fn config_path_in(base: &str) -> (path: String)
    ensures
        path@ == spec_config_path_in(base@),
{
    let dir = config_dir_in(base);
    join_path(dir.as_str(), DEFAULT_CONFIG_FILENAME)
}

/// This program's configuration directory, if the user has one.
pub fn default_config_dir() -> (dir: Option<String>)
    ensures
        dir matches Some(d) ==> exists|base: Seq<char>| d@ == #[trigger] spec_config_dir_in(base),
{
    match user_config_dir() {
        Some(base) => Some(config_dir_in(base.as_str())),
        None => None,
    }
}

/// This program's configuration file, if the user has a configuration
/// directory.
pub fn default_config_path() -> (path: Option<String>)
    ensures
        path matches Some(p) ==> exists|base: Seq<char>| p@ == #[trigger] spec_config_path_in(base),
{
    match user_config_dir() {
        Some(base) => Some(config_path_in(base.as_str())),
        None => None,
    }
}

/// Where the configuration is looked for, given the override, the user
/// configuration directory, the executable's path and the working directory.
pub fn search_paths_from(
    env_override: Option<String>,
    user_config: Option<String>,
    exe: Option<String>,
    cwd: Option<String>,
) -> (paths: Vec<String>)
    ensures
        paths@.map_values(|p: String| p@) == spec_search_paths(
            opt_view(env_override),
            opt_view(user_config),
            opt_view(exe),
            opt_view(cwd),
        ),
{
    let mut paths: Vec<String> = Vec::new();
    let ghost mut expected: Seq<Seq<char>> = Seq::empty();
    if let Some(value) = env_override {
        paths.push(value);
    }
    proof {
        expected = opt_list(opt_view(env_override));
        assert(paths@.map_values(|p: String| p@) =~= expected);
    }
    if let Some(base) = &user_config {
        let nested = config_path_in(base.as_str());
        let direct = join_path(base.as_str(), DEFAULT_CONFIG_FILENAME);
        paths.push(nested);
        paths.push(direct);
    }
    proof {
        expected = expected + match opt_view(user_config) {
            Some(base) => seq![spec_config_path_in(base), joined_path(base, DEFAULT_CONFIG_FILENAME@)],
            None => Seq::empty(),
        };
        assert(paths@.map_values(|p: String| p@) =~= expected);
    }
    if let Some(e) = &exe {
        let dir = match parent_path(e.as_str()) {
            Some(p) => p,
            None => e.clone(),
        };
        paths.push(join_path(dir.as_str(), DEFAULT_CONFIG_FILENAME));
    }
    proof {
        expected = expected + match opt_view(exe) {
            Some(e) => seq![joined_path(spec_exe_dir(e), DEFAULT_CONFIG_FILENAME@)],
            None => Seq::empty(),
        };
        assert(paths@.map_values(|p: String| p@) =~= expected);
    }
    if let Some(c) = &cwd {
        paths.push(join_path(c.as_str(), DEFAULT_CONFIG_FILENAME));
    }
    proof {
        expected = expected + match opt_view(cwd) {
            Some(c) => seq![joined_path(c, DEFAULT_CONFIG_FILENAME@)],
            None => Seq::empty(),
        };
        assert(paths@.map_values(|p: String| p@) =~= expected);
    }
    paths
}

/// Where the configuration is looked for: as [`search_paths_from`], with the
/// user configuration directory as the environment gives it.
pub fn config_search_paths(env_override: Option<String>, exe: Option<String>, cwd: Option<String>) -> (paths: Vec<String>)
    ensures
        exists|user_config: Option<Seq<char>>|
            paths@.map_values(|p: String| p@) == #[trigger] spec_search_paths(
                opt_view(env_override),
                user_config,
                opt_view(exe),
                opt_view(cwd),
            ),
{
    let user_config = user_config_dir();
    let paths = search_paths_from(env_override, user_config, exe, cwd);
    assert(paths@.map_values(|p: String| p@) == spec_search_paths(
        opt_view(env_override),
        opt_view(user_config),
        opt_view(exe),
        opt_view(cwd),
    ));
    paths
}

/// A configuration together with the directory of the file it came from.
#[derive(Debug)]
pub struct LoadedConfig {
    pub config: Config,
    pub origin_dir: Option<String>,
}

/// One place the configuration was looked for, and what was read there (if
/// a file was found and parsed).
pub struct ConfigAttempt {
    pub path: String,
    pub config: Option<Config>,
}

/// The configuration at `k` is the first one found.
pub open spec fn is_first_found(attempts: Seq<ConfigAttempt>, k: int) -> bool {
    &&& 0 <= k < attempts.len()
    &&& attempts[k].config is Some
    &&& forall|j: int| 0 <= j < k ==> (#[trigger] attempts[j]).config is None
}

/// The configuration to use: the first one found, with the directory of its
/// file; the defaults, with no directory, when none was found.
pub fn load_config(attempts: Vec<ConfigAttempt>) -> (loaded: LoadedConfig)
    ensures
        forall|k: int|
            is_first_found(attempts@, k) ==> {
                &&& loaded.config == attempts@[k].config->0
                &&& opt_view(loaded.origin_dir) == parent_of_path(#[trigger] attempts@[k].path@)
            },
        (forall|k: int| 0 <= k < attempts@.len() ==> (#[trigger] attempts@[k]).config is None) ==> {
            &&& is_default_config(loaded.config)
            &&& loaded.origin_dir is None
        },
{
    let mut pending = attempts;
    let ghost orig = pending@;
    let n = pending.len();
    let mut i: usize = 0;
    while i < n
        invariant
            n == orig.len(),
            pending@ == orig,
            attempts@ == orig,
            0 <= i <= n,
            forall|j: int| 0 <= j < i ==> (#[trigger] orig[j]).config is None,
        decreases n - i,
    {
        if pending[i].config.is_some() {
            let found = pending.remove(i);
            assert(found == orig[i as int]);
            assert forall|k: int| is_first_found(orig, k) implies k == i by {
                if k < i {
                    assert(orig[k].config is None);
                } else if k > i {
                    assert(orig[i as int].config is None);
                }
            }
            let origin_dir = parent_path(found.path.as_str());
            let config = match found.config {
                Some(c) => c,
                None => Config::default(),
            };
            return LoadedConfig { config, origin_dir };
        }
        i = i + 1;
    }
    LoadedConfig { config: Config::default(), origin_dir: None }
}


/// Every spec of a list has mode `mode`.
pub open spec fn all_of_mode(specs: Seq<(ActionMode, ActionTrigger, Seq<char>)>, mode: ActionMode) -> bool {
    forall|k: int| 0 <= k < specs.len() ==> (#[trigger] specs[k]).0 == mode
}

/// The named hooks of a group all get the group's mode.
proof fn lemma_named_hooks_mode(
    named: Seq<(String, HookEntry)>,
    group_when: Option<ActionWhen>,
    mode: ActionMode,
)
    ensures
        spec_named_hooks(named, group_when, mode) matches Ok(specs) ==> all_of_mode(specs, mode),
    decreases named.len(),
{
    if named.len() > 0 {
        lemma_named_hooks_mode(named.drop_last(), group_when, mode);
    }
}

/// A group's hooks all get the group's mode.
proof fn lemma_group_mode(group: HookGroup, mode: ActionMode)
    ensures
        spec_group_specs(group, mode) matches Ok(specs) ==> all_of_mode(specs, mode),
{
    lemma_named_hooks_mode(group.named@, group.when, mode);
}

/// The action specs of a configuration are the charging hooks followed by
/// the discharging hooks: no charging spec comes after a discharging one,
/// and each group's hooks keep the group's mode.
pub proof fn law_specs_grouped_by_mode(config: Config)
    ensures
        spec_action_specs(config) matches Ok(specs) ==> {
            &&& forall|k: int| 0 <= k < specs.len() ==> ((#[trigger] specs[k]).0 == ActionMode::Charging
                || specs[k].0 == ActionMode::Discharging)
            &&& forall|i: int, j: int|
                0 <= i < j < specs.len() && (#[trigger] specs[i]).0 == ActionMode::Discharging
                    ==> (#[trigger] specs[j]).0 == ActionMode::Discharging
        },
{
    lemma_group_mode(config.sections.charging, ActionMode::Charging);
    lemma_group_mode(config.sections.discharging, ActionMode::Discharging);
    if let Ok(specs) = spec_action_specs(config) {
        let a = spec_group_specs(config.sections.charging, ActionMode::Charging)->Ok_0;
        let b = spec_group_specs(config.sections.discharging, ActionMode::Discharging)->Ok_0;
        assert(specs == a + b);
        assert forall|k: int| 0 <= k < specs.len() implies ((#[trigger] specs[k]).0 == ActionMode::Charging
            || specs[k].0 == ActionMode::Discharging) by {
            if k < a.len() {
                assert(specs[k] == a[k]);
            } else {
                assert(specs[k] == b[k - a.len()]);
            }
        }
        assert forall|i: int, j: int|
            0 <= i < j < specs.len() && (#[trigger] specs[i]).0 == ActionMode::Discharging
                implies (#[trigger] specs[j]).0 == ActionMode::Discharging by {
            if i < a.len() {
                assert(specs[i] == a[i]);
            }
            assert(specs[j] == b[j - a.len()]);
        }
    }
}

/// The intervals in use are never below their minimum, and a configured
/// value at or above the minimum is used as it is.
pub proof fn law_intervals_respect_minimum(value: u64, min: u64)
    ensures
        clamp_to_min(value, min) >= min,
        value >= min ==> clamp_to_min(value, min) == value,
        value < min ==> clamp_to_min(value, min) == min,
{
}

/// A hook without `when` fires once on entering its state; a numeric `when`
/// is a threshold at that percentage.
pub proof fn law_when_defaults(command: Seq<char>, mode: ActionMode, level: u8)
    ensures
        spec_build_spec(command, None, mode) == Ok::<(ActionMode, ActionTrigger, Seq<char>), Seq<char>>(
            (mode, ActionTrigger::StateEnter, command),
        ),
        spec_build_spec(command, Some(ActionWhen::Number(level)), mode) == Ok::<
            (ActionMode, ActionTrigger, Seq<char>),
            Seq<char>,
        >((mode, ActionTrigger::Threshold(level), command)),
{
}


/// `a` sorts before `b`: code point by code point, a proper prefix first (the
/// order of `String`s, and so of a `BTreeMap`'s keys).
pub open spec fn name_less(a: Seq<char>, b: Seq<char>) -> bool
    decreases a.len(),
{
    if a.len() == 0 {
        b.len() > 0
    } else if b.len() == 0 {
        false
    } else if a[0] != b[0] {
        (a[0] as u32) < (b[0] as u32)
    } else {
        name_less(a.drop_first(), b.drop_first())
    }
}

impl HookGroup {
    /// The named hooks are in ascending name order with no name twice, as a
    /// table's keys are when read from the file.
    pub open spec fn well_formed(&self) -> bool {
        forall|i: int, j: int|
            0 <= i < j < self.named@.len() ==> name_less(
                (#[trigger] self.named@[i]).0@,
                (#[trigger] self.named@[j]).0@,
            )
    }
}

/// The named hooks' specs correspond one to one, position by position, to
/// the named hooks; in a well-formed group they therefore come in ascending
/// name order, each name once.
pub proof fn law_named_hooks_in_name_order(
    named: Seq<(String, HookEntry)>,
    group_when: Option<ActionWhen>,
    mode: ActionMode,
)
    ensures
        spec_named_hooks(named, group_when, mode) matches Ok(specs) ==> {
            &&& specs.len() == named.len()
            &&& forall|i: int|
                0 <= i < named.len() ==> spec_named_hook((#[trigger] named[i]).0@, named[i].1, group_when, mode)
                    == Ok::<(ActionMode, ActionTrigger, Seq<char>), Seq<char>>(specs[i])
        },
    decreases named.len(),
{
    if named.len() > 0 {
        let before = named.drop_last();
        law_named_hooks_in_name_order(before, group_when, mode);
        if let Ok(specs) = spec_named_hooks(named, group_when, mode) {
            let prev = spec_named_hooks(before, group_when, mode)->Ok_0;
            assert forall|i: int| 0 <= i < named.len() implies spec_named_hook(
                (#[trigger] named[i]).0@,
                named[i].1,
                group_when,
                mode,
            ) == Ok::<(ActionMode, ActionTrigger, Seq<char>), Seq<char>>(specs[i]) by {
                if i < before.len() {
                    assert(before[i] == named[i]);
                    assert(specs[i] == prev[i]);
                }
            }
        }
    }
}


/// A named hook without a `when` of its own takes its group's `when`,
/// whatever it is (a number or a text); one with its own `when` keeps it.
pub proof fn law_named_hook_inherits_group_when(
    name: Seq<char>,
    entry: HookEntry,
    group_when: Option<ActionWhen>,
    mode: ActionMode,
)
    ensures
        spec_trimmed(entry.script@) matches Some(command) ==> {
            &&& entry.when is None ==> spec_named_hook(name, entry, group_when, mode) == spec_build_spec(
                command,
                group_when,
                mode,
            )
            &&& entry.when is Some ==> spec_named_hook(name, entry, group_when, mode)
                == spec_build_spec(command, entry.when, mode)
        },
        spec_trimmed(entry.script@) is None ==> spec_named_hook(name, entry, group_when, mode)
            == Err::<(ActionMode, ActionTrigger, Seq<char>), Seq<char>>(
            "Hook `"@ + name + "` is missing a script"@,
        ),
{
}

/// A text `when` of `always` (in any ASCII case) fires on every report, of
/// `once` fires on entering the state, and any other text is refused with
/// its message; a number is a threshold at that percentage.
pub proof fn law_when_texts(command: Seq<char>, mode: ActionMode, value: String, level: u8)
    ensures
        spec_eq_ignore_ascii_case(value@, "always"@) ==> spec_build_spec(command, Some(ActionWhen::Text(value)), mode)
            == Ok::<(ActionMode, ActionTrigger, Seq<char>), Seq<char>>((mode, ActionTrigger::Always, command)),
        !spec_eq_ignore_ascii_case(value@, "always"@) && spec_eq_ignore_ascii_case(value@, "once"@)
            ==> spec_build_spec(command, Some(ActionWhen::Text(value)), mode) == Ok::<
            (ActionMode, ActionTrigger, Seq<char>),
            Seq<char>,
        >((mode, ActionTrigger::StateEnter, command)),
        !spec_eq_ignore_ascii_case(value@, "always"@) && !spec_eq_ignore_ascii_case(value@, "once"@)
            ==> spec_build_spec(command, Some(ActionWhen::Text(value)), mode) == Err::<
            (ActionMode, ActionTrigger, Seq<char>),
            Seq<char>,
        >("unsupported `when = \""@ + value@ + "\"`"@),
        spec_build_spec(command, Some(ActionWhen::Number(level)), mode) == Ok::<
            (ActionMode, ActionTrigger, Seq<char>),
            Seq<char>,
        >((mode, ActionTrigger::Threshold(level), command)),
{
}

/// The places the configuration is looked for: the override (if any) first;
/// then, with a user configuration directory `base`, always both
/// `base/batwatch/batwatch.toml` and `base/batwatch.toml`, in that order;
/// then `batwatch.toml` beside the executable (in its directory, or beside
/// a path with no parent); then `batwatch.toml` in the working directory,
/// last.
pub proof fn law_search_order(
    env_override: Option<Seq<char>>,
    user_config: Option<Seq<char>>,
    exe: Option<Seq<char>>,
    cwd: Option<Seq<char>>,
)
    ensures
        ({
            let paths = spec_search_paths(env_override, user_config, exe, cwd);
            let o: int = if env_override is Some { 1 } else { 0 };
            let u: int = if user_config is Some { 2 } else { 0 };
            let x: int = if exe is Some { 1 } else { 0 };
            let w: int = if cwd is Some { 1 } else { 0 };
            &&& paths.len() == o + u + x + w
            &&& env_override matches Some(v) ==> paths[0] == v
            &&& user_config matches Some(base) ==> {
                &&& paths[o] == joined_path(joined_path(base, "batwatch"@), "batwatch.toml"@)
                &&& paths[o + 1] == joined_path(base, "batwatch.toml"@)
            }
            &&& exe matches Some(e) ==> paths[o + u] == joined_path(
                match parent_of_path(e) {
                    Some(dir) => dir,
                    None => e,
                },
                "batwatch.toml"@,
            )
            &&& cwd matches Some(c) ==> paths[o + u + x] == joined_path(c, "batwatch.toml"@)
        }),
{
    let paths = spec_search_paths(env_override, user_config, exe, cwd);
    let o: int = if env_override is Some { 1 } else { 0 };
    let u: int = if user_config is Some { 2 } else { 0 };
    let x: int = if exe is Some { 1 } else { 0 };
    let a = opt_list(env_override);
    let b = match user_config {
        Some(base) => seq![spec_config_path_in(base), joined_path(base, DEFAULT_CONFIG_FILENAME@)],
        None => Seq::<Seq<char>>::empty(),
    };
    let c = match exe {
        Some(e) => seq![joined_path(spec_exe_dir(e), DEFAULT_CONFIG_FILENAME@)],
        None => Seq::<Seq<char>>::empty(),
    };
    let d = match cwd {
        Some(w) => seq![joined_path(w, DEFAULT_CONFIG_FILENAME@)],
        None => Seq::<Seq<char>>::empty(),
    };
    assert(paths == a + b + c + d);
    assert(a.len() == o && b.len() == u && c.len() == x);
    assert(DEFAULT_CONFIG_FILENAME@ == "batwatch.toml"@);
    if let Some(v) = env_override {
        assert(paths[0] == a[0]);
    }
    if user_config is Some {
        assert(paths[o] == b[0]);
        assert(paths[o + 1] == b[1]);
    }
    if exe is Some {
        assert(paths[o + u] == c[0]);
    }
    if cwd is Some {
        assert(paths[o + u + x] == d[0]);
    }
}

} // verus!
