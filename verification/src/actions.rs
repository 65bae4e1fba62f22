use crate::paths::{
    is_absolute_path, join_path, joined_path, opt_view, path_exists, path_is_absolute,
};
use vstd::prelude::*;

verus! {

/// Battery state as reported by UPower (`1` charging, `2` discharging).
#[derive(Clone, Copy, Debug, PartialEq, Eq, Structural)]
pub enum BatteryState {
    Charging,
    Discharging,
    Other(u32),
}

/// The battery state an action is bound to.
#[derive(Clone, Copy, Debug, PartialEq, Eq, Structural)]
pub enum ActionMode {
    Charging,
    Discharging,
}

/// The state a UPower state code denotes.
pub open spec fn state_of_code(code: u32) -> BatteryState {
    if code == 1 {
        BatteryState::Charging
    } else if code == 2 {
        BatteryState::Discharging
    } else {
        BatteryState::Other(code)
    }
}

/// Whether a battery state is the one an action mode is bound to.
pub open spec fn state_matches_mode(state: BatteryState, mode: ActionMode) -> bool {
    match (state, mode) {
        (BatteryState::Charging, ActionMode::Charging) => true,
        (BatteryState::Discharging, ActionMode::Discharging) => true,
        _ => false,
    }
}

impl BatteryState {
    /// Decodes a UPower `State` property value.
    pub fn from_code(code: u32) -> (state: Self)
        ensures
            state == state_of_code(code),
    {
        match code {
            1 => BatteryState::Charging,
            2 => BatteryState::Discharging,
            other => BatteryState::Other(other),
        }
    }

    /// Whether this state is the one `mode` is bound to.
    pub fn matches_mode(self, mode: ActionMode) -> (b: bool)
        ensures
            b == state_matches_mode(self, mode),
    {
        match (self, mode) {
            (BatteryState::Charging, ActionMode::Charging) => true,
            (BatteryState::Discharging, ActionMode::Discharging) => true,
            _ => false,
        }
    }
}

} // verus!

verus! {

/// When an action fires within its battery state.
#[derive(Clone, Copy, Debug, PartialEq, Eq, Structural)]
pub enum ActionTrigger {
    /// Once, when the battery enters the action's state.
    StateEnter,
    /// Once per stay in the state, when the percentage crosses the level
    /// (upwards while charging, downwards while discharging).
    Threshold(u8),
    /// On every update while in the state.
    Always,
}

/// A configured hook: its mode, its trigger and the command naming its script.
#[derive(Debug)]
pub struct ActionSpec {
    pub mode: ActionMode,
    pub trigger: ActionTrigger,
    pub command: String,
}

impl View for ActionSpec {
    type V = (ActionMode, ActionTrigger, Seq<char>);

    open spec fn view(&self) -> (ActionMode, ActionTrigger, Seq<char>) {
        (self.mode, self.trigger, self.command@)
    }
}

/// One status update of one device, with what was last seen of it.
pub struct StatusEvent {
    pub device_path: String,
    pub percentage: u8,
    pub previous_percentage: Option<u8>,
    pub state: BatteryState,
    pub previous_state: Option<BatteryState>,
}

/// The mathematical content of a [`StatusEvent`].
pub ghost struct EventView {
    pub device_path: Seq<char>,
    pub percentage: u8,
    pub previous_percentage: Option<u8>,
    pub state: BatteryState,
    pub previous_state: Option<BatteryState>,
}

impl View for StatusEvent {
    type V = EventView;

    open spec fn view(&self) -> EventView {
        EventView {
            device_path: self.device_path@,
            percentage: self.percentage,
            previous_percentage: self.previous_percentage,
            state: self.state,
            previous_state: self.previous_state,
        }
    }
}

/// A hook with its script resolved to a path.
pub struct Action {
    pub id: usize,
    pub mode: ActionMode,
    pub trigger: ActionTrigger,
    pub script: String,
}

/// A script that an event has fired: what the caller is to launch.
pub struct ScriptLaunch {
    pub action_id: usize,
    pub script: String,
    pub mode: ActionMode,
    pub percentage: u8,
    pub device_path: String,
}

/// The mathematical content of a [`ScriptLaunch`].
pub ghost struct LaunchView {
    pub action_id: nat,
    pub script: Seq<char>,
    pub mode: ActionMode,
    pub percentage: u8,
    pub device_path: Seq<char>,
}

impl View for ScriptLaunch {
    type V = LaunchView;

    open spec fn view(&self) -> LaunchView {
        LaunchView {
            action_id: self.action_id as nat,
            script: self.script@,
            mode: self.mode,
            percentage: self.percentage,
            device_path: self.device_path@,
        }
    }
}

/// The percentage rose to `level` or past it (any first reading at or above
/// `level` counts).
pub open spec fn spec_crossed_up(previous: Option<u8>, current: u8, level: u8) -> bool {
    match previous {
        Some(prev) => prev < level && current >= level,
        None => current >= level,
    }
}

/// The percentage fell to `level` or past it (any first reading at or below
/// `level` counts).
pub open spec fn spec_crossed_down(previous: Option<u8>, current: u8, level: u8) -> bool {
    match previous {
        Some(prev) => prev > level && current <= level,
        None => current <= level,
    }
}

/// The device was not in `mode`'s state before this event (or nothing was
/// known of it).
pub open spec fn spec_just_entered(previous_state: Option<BatteryState>, mode: ActionMode) -> bool {
    match previous_state {
        Some(prev) => !state_matches_mode(prev, mode),
        None => true,
    }
}

/// Triggers that, once fired, stay quiet until the battery leaves the state.
pub open spec fn is_sticky(trigger: ActionTrigger) -> bool {
    trigger is StateEnter || trigger is Threshold
}

/// Whether an action of this mode and trigger fires on `event`, given whether
/// it already fired during the current stay in its state.
pub open spec fn spec_fires(
    mode: ActionMode,
    trigger: ActionTrigger,
    event: EventView,
    already_triggered: bool,
) -> bool {
    match trigger {
        ActionTrigger::StateEnter => spec_just_entered(event.previous_state, mode),
        ActionTrigger::Threshold(level) => !already_triggered && match mode {
            ActionMode::Charging => spec_crossed_up(
                event.previous_percentage,
                event.percentage,
                level,
            ),
            ActionMode::Discharging => spec_crossed_down(
                event.previous_percentage,
                event.percentage,
                level,
            ),
        },
        ActionTrigger::Always => true,
    }
}

/// One event for one action: whether it fires, and its "already triggered in
/// this state" flag afterwards.
pub open spec fn action_step(
    mode: ActionMode,
    trigger: ActionTrigger,
    event: EventView,
    triggered: bool,
) -> (bool, bool) {
    if !state_matches_mode(event.state, mode) {
        (false, false)
    } else if spec_fires(mode, trigger, event, triggered) {
        (true, if is_sticky(trigger) { true } else { triggered })
    } else {
        (false, if trigger is StateEnter { false } else { triggered })
    }
}

/// The launch an action yields for an event.
pub open spec fn launch_of(index: nat, action: Action, event: EventView) -> LaunchView {
    LaunchView {
        action_id: index,
        script: action.script@,
        mode: action.mode,
        percentage: event.percentage,
        device_path: event.device_path,
    }
}

/// The launches of the first `n` actions for `event`, in action order.
pub open spec fn launches_upto(
    actions: Seq<Action>,
    triggered: Seq<bool>,
    event: EventView,
    n: nat,
) -> Seq<LaunchView>
    decreases n,
{
    if n == 0 {
        Seq::empty()
    } else {
        let i = (n - 1) as nat;
        let before = launches_upto(actions, triggered, event, i);
        if action_step(actions[i as int].mode, actions[i as int].trigger, event, triggered[i as int]).0 {
            before.push(launch_of(i, actions[i as int], event))
        } else {
            before
        }
    }
}

impl ActionTrigger {
    /// Whether the trigger stays quiet after firing until the state is left.
    pub fn sticky_within_state(self) -> (b: bool)
        ensures
            b == is_sticky(self),
    {
        match self {
            ActionTrigger::StateEnter => true,
            ActionTrigger::Threshold(_) => true,
            ActionTrigger::Always => false,
        }
    }
}

/// Whether the percentage rose to `level` or past it.
pub fn crossed_up(previous: Option<u8>, current: u8, level: u8) -> (b: bool)
    ensures
        b == spec_crossed_up(previous, current, level),
{
    match previous {
        Some(prev) => prev < level && current >= level,
        None => current >= level,
    }
}

/// Whether the percentage fell to `level` or past it.
pub fn crossed_down(previous: Option<u8>, current: u8, level: u8) -> (b: bool)
    ensures
        b == spec_crossed_down(previous, current, level),
{
    match previous {
        Some(prev) => prev > level && current <= level,
        None => current <= level,
    }
}

/// Whether the event's device has just entered `mode`'s state.
pub fn state_just_entered(event: &StatusEvent, mode: ActionMode) -> (b: bool)
    ensures
        b == spec_just_entered(event.previous_state, mode),
{
    match event.previous_state {
        Some(prev) => !prev.matches_mode(mode),
        None => true,
    }
}

impl Action {
    /// Whether this action fires on `event`, given whether it already fired
    /// during the current stay in its state.
    pub fn should_fire(&self, event: &StatusEvent, already_triggered: bool) -> (b: bool)
        ensures
            b == spec_fires(self.mode, self.trigger, event@, already_triggered),
    {
        match self.trigger {
            ActionTrigger::StateEnter => state_just_entered(event, self.mode),
            ActionTrigger::Threshold(level) => {
                if already_triggered {
                    return false;
                }
                match self.mode {
                    ActionMode::Charging => crossed_up(
                        event.previous_percentage,
                        event.percentage,
                        level,
                    ),
                    ActionMode::Discharging => crossed_down(
                        event.previous_percentage,
                        event.percentage,
                        level,
                    ),
                }
            },
            ActionTrigger::Always => true,
        }
    }
}


/// Where hook commands are looked up: the directory the configuration came
/// from, its `scripts` subdirectory, and the directories of `$PATH`.
#[derive(Clone)]
pub struct ScriptResolver {
    config_dir: Option<String>,
    config_scripts_dir: Option<String>,
    search_dirs: Vec<String>,
}

/// The mathematical content of a [`ScriptResolver`].
pub ghost struct ResolverView {
    pub config_dir: Option<Seq<char>>,
    pub config_scripts_dir: Option<Seq<char>>,
    pub search_dirs: Seq<Seq<char>>,
}

impl View for ScriptResolver {
    type V = ResolverView;

    closed spec fn view(&self) -> ResolverView {
        ResolverView {
            config_dir: opt_view(self.config_dir),
            config_scripts_dir: opt_view(self.config_scripts_dir),
            search_dirs: self.search_dirs@.map_values(|d: String| d@),
        }
    }
}

/// The paths tried, in order, for a relative command.
pub open spec fn resolution_candidates(r: ResolverView, command: Seq<char>) -> Seq<Seq<char>> {
    let in_config = match r.config_dir {
        Some(dir) => seq![joined_path(dir, command)],
        None => Seq::empty(),
    };
    let in_scripts = match r.config_scripts_dir {
        Some(dir) => seq![joined_path(dir, command)],
        None => Seq::empty(),
    };
    in_config + in_scripts + r.search_dirs.map_values(|dir: Seq<char>| joined_path(dir, command))
}

/// The first candidate whose probe says it exists; `fallback` when none does
/// (a missing probe counts as "does not exist").
pub open spec fn first_existing(
    candidates: Seq<Seq<char>>,
    probes: Seq<bool>,
    fallback: Seq<char>,
) -> Seq<char>
    decreases candidates.len(),
{
    if candidates.len() == 0 || probes.len() == 0 {
        fallback
    } else if probes[0] {
        candidates[0]
    } else {
        first_existing(candidates.drop_first(), probes.drop_first(), fallback)
    }
}

/// Where `command` resolves to, given which candidates exist: an absolute
/// command as it is; otherwise the first existing candidate, else the command
/// itself.
pub open spec fn resolution(r: ResolverView, command: Seq<char>, probes: Seq<bool>) -> Seq<char> {
    if is_absolute_path(command) {
        command
    } else {
        first_existing(resolution_candidates(r, command), probes, command)
    }
}

/// `command` may resolve to `path`, for some state of the filesystem.
pub open spec fn may_resolve_to(r: ResolverView, command: Seq<char>, path: Seq<char>) -> bool {
    exists|probes: Seq<bool>| #[trigger] resolution(r, command, probes) == path
}

/// The first `n` probes are false, then one true: the first existing
/// candidate is candidate `n`.
proof fn lemma_first_existing_hit(c: Seq<Seq<char>>, p: Seq<bool>, f: Seq<char>, n: int)
    requires
        0 <= n < c.len(),
        n < p.len(),
        p[n],
        forall|j: int| 0 <= j < n ==> !p[j],
    ensures
        first_existing(c, p, f) == c[n],
    decreases n,
{
    if n > 0 {
        lemma_first_existing_hit(c.drop_first(), p.drop_first(), f, n - 1);
    }
}

/// No probe of a candidate is true: the fallback is used.
proof fn lemma_first_existing_miss(c: Seq<Seq<char>>, p: Seq<bool>, f: Seq<char>)
    requires
        forall|j: int| 0 <= j < p.len() && j < c.len() ==> !p[j],
    ensures
        first_existing(c, p, f) == f,
    decreases c.len(),
{
    if c.len() > 0 && p.len() > 0 {
        lemma_first_existing_miss(c.drop_first(), p.drop_first(), f);
    }
}

/// Which rule resolved a command.
#[derive(Clone, Copy, Debug, PartialEq, Eq, Structural)]
pub enum ScriptSource {
    /// The command is an absolute path.
    Explicit,
    /// Found relative to the configuration directory.
    ConfigDir,
    /// Found in the configuration's `scripts` directory.
    ScriptsDir,
    /// Found in a directory of `$PATH`.
    SearchPath,
    /// Nothing found: the command is used as it is.
    Literal,
}

/// A resolved command: the command, the path it resolved to, and the rule
/// that chose that path.
#[derive(Debug)]
pub struct Resolved {
    pub command: String,
    pub path: String,
    pub source: ScriptSource,
    /// For the candidates probed, in order, whether each existed.
    pub probes: Vec<bool>,
}

/// A copy of a list of flags.
fn copy_flags(flags: &Vec<bool>) -> (copy: Vec<bool>)
    ensures
        copy@ == flags@,
{
    let mut copy: Vec<bool> = Vec::new();
    let n = flags.len();
    let mut i: usize = 0;
    while i < n
        invariant
            n == flags.len(),
            0 <= i <= n,
            copy@ == flags@.take(i as int),
        decreases n - i,
    {
        copy.push(flags[i]);
        assert(flags@.take(i + 1) =~= flags@.take(i as int).push(flags@[i as int]));
        i = i + 1;
    }
    assert(flags@.take(n as int) =~= flags@);
    copy
}

/// The probes record looking at the candidates in order and stopping at the
/// first that exists: none for an absolute command; otherwise every probe
/// but the last is false, and either all candidates were probed or the last
/// probe found one.
pub open spec fn probed_in_order(r: ResolverView, command: Seq<char>, probes: Seq<bool>) -> bool {
    if is_absolute_path(command) {
        probes.len() == 0
    } else {
        let n = resolution_candidates(r, command).len();
        &&& probes.len() <= n
        &&& forall|j: int| 0 <= j < probes.len() - 1 ==> !#[trigger] probes[j]
        &&& (probes.len() == n || (probes.len() > 0 && probes[probes.len() - 1]))
    }
}

/// The position of the first probe (among the first `n`) that is true.
pub open spec fn first_hit(n: int, probes: Seq<bool>) -> Option<int>
    decreases probes.len(),
{
    if n <= 0 || probes.len() == 0 {
        None
    } else if probes[0] {
        Some(0)
    } else {
        match first_hit(n - 1, probes.drop_first()) {
            Some(k) => Some(k + 1),
            None => None,
        }
    }
}

/// How many candidates an optional directory contributes.
pub open spec fn dir_count(dir: Option<Seq<char>>) -> int {
    if dir is Some {
        1
    } else {
        0
    }
}

/// The rule by which `command` resolves, given which candidates exist.
pub open spec fn resolution_source(r: ResolverView, command: Seq<char>, probes: Seq<bool>) -> ScriptSource {
    if is_absolute_path(command) {
        ScriptSource::Explicit
    } else {
        match first_hit(resolution_candidates(r, command).len() as int, probes) {
            None => ScriptSource::Literal,
            Some(k) => if k < dir_count(r.config_dir) {
                ScriptSource::ConfigDir
            } else if k < dir_count(r.config_dir) + dir_count(r.config_scripts_dir) {
                ScriptSource::ScriptsDir
            } else {
                ScriptSource::SearchPath
            },
        }
    }
}

/// `command` may resolve to `path` by the rule `source`, for some state of
/// the filesystem.
pub open spec fn may_resolve_by(r: ResolverView, command: Seq<char>, path: Seq<char>, source: ScriptSource) -> bool {
    exists|probes: Seq<bool>|
        #![trigger resolution(r, command, probes)]
        resolution(r, command, probes) == path && resolution_source(r, command, probes) == source
}

/// The first `i` probes are false and probe `i` is true.
proof fn lemma_first_hit_at(n: int, p: Seq<bool>, i: int)
    requires
        0 <= i < n,
        i < p.len(),
        p[i],
        forall|j: int| 0 <= j < i ==> !p[j],
    ensures
        first_hit(n, p) == Some(i),
    decreases i,
{
    if i > 0 {
        lemma_first_hit_at(n - 1, p.drop_first(), i - 1);
    }
}

/// No probe among the first `n` is true.
proof fn lemma_first_hit_none(n: int, p: Seq<bool>)
    requires
        forall|j: int| 0 <= j < p.len() && j < n ==> !p[j],
    ensures
        first_hit(n, p) is None,
    decreases p.len(),
{
    if n > 0 && p.len() > 0 {
        lemma_first_hit_none(n - 1, p.drop_first());
    }
}

impl ScriptResolver {
    /// A resolver for hooks configured in `config_dir` (if the configuration
    /// came from a file); bare names are also looked up in its `scripts`
    /// subdirectory.
    pub fn new(config_dir: Option<String>) -> (r: Self)
        ensures
            r@.config_dir == opt_view(config_dir),
            r@.config_scripts_dir == match config_dir {
                Some(dir) => Some(joined_path(dir@, "scripts"@)),
                None => None::<Seq<char>>,
            },
            r@.search_dirs == Seq::<Seq<char>>::empty(),
    {
        let config_scripts_dir = match &config_dir {
            Some(dir) => Some(join_path(dir.as_str(), "scripts")),
            None => None,
        };
        let r = ScriptResolver { config_dir, config_scripts_dir, search_dirs: Vec::new() };
        assert(r@.search_dirs =~= Seq::<Seq<char>>::empty());
        r
    }

    /// The same resolver, searching `dirs` (the entries of `$PATH`, in order)
    /// after the configuration directories.
    pub fn with_search_dirs(self, dirs: Vec<String>) -> (r: Self)
        ensures
            r@ == (ResolverView { search_dirs: dirs@.map_values(|d: String| d@), ..self@ }),
    {
        ScriptResolver { search_dirs: dirs, ..self }
    }

    /// The paths tried, in order, for a relative `command`.
    pub fn candidates(&self, command: &str) -> (paths: Vec<String>)
        ensures
            paths@.map_values(|p: String| p@) == resolution_candidates(self@, command@),
    {
        let mut paths: Vec<String> = Vec::new();
        if let Some(dir) = &self.config_dir {
            paths.push(join_path(dir.as_str(), command));
        }
        if let Some(dir) = &self.config_scripts_dir {
            paths.push(join_path(dir.as_str(), command));
        }
        let ghost head = paths@.map_values(|p: String| p@);
        let ghost spec_head = match self@.config_dir {
            Some(dir) => seq![joined_path(dir, command@)],
            None => Seq::empty(),
        } + match self@.config_scripts_dir {
            Some(dir) => seq![joined_path(dir, command@)],
            None => Seq::empty(),
        };
        assert(head =~= spec_head);
        let ghost dirs = self@.search_dirs.map_values(|dir: Seq<char>| joined_path(dir, command@));
        let n = self.search_dirs.len();
        let mut i: usize = 0;
        while i < n
            invariant
                n == self.search_dirs.len(),
                0 <= i <= n,
                head.len() + i == paths.len(),
                dirs == self@.search_dirs.map_values(|dir: Seq<char>| joined_path(dir, command@)),
                self@.search_dirs == self.search_dirs@.map_values(|d: String| d@),
                paths@.map_values(|p: String| p@) =~= head + dirs.take(i as int),
            decreases n - i,
        {
            let joined = join_path(self.search_dirs[i].as_str(), command);
            assert(joined@ == dirs[i as int]);
            let ghost before = paths@;
            paths.push(joined);
            assert(paths@.map_values(|p: String| p@) =~= before.map_values(|p: String| p@).push(joined@));
            assert(dirs.take(i + 1) =~= dirs.take(i as int).push(dirs[i as int]));
            i = i + 1;
        }
        assert(dirs.take(n as int) =~= dirs);
        paths
    }

    /// Where `command` resolves to, and by which rule, given for each
    /// candidate (in order) whether it exists.
    pub fn explain_with_probes(&self, command: &str, probes: &Vec<bool>) -> (resolved: Resolved)
        ensures
            resolved.command@ == command@,
            resolved.path@ == resolution(self@, command@, probes@),
            resolved.source == resolution_source(self@, command@, probes@),
            resolved.probes@ == probes@,
    {
        if path_is_absolute(command) {
            return Resolved {
                command: String::from_str(command),
                path: String::from_str(command),
                source: ScriptSource::Explicit,
                probes: copy_flags(probes),
            };
        }
        let candidates = self.candidates(command);
        let ghost cands = candidates@.map_values(|p: String| p@);
        let in_config: usize = if self.config_dir.is_some() { 1 } else { 0 };
        let in_scripts: usize = if self.config_scripts_dir.is_some() { 1 } else { 0 };
        assert(in_config == dir_count(self@.config_dir));
        assert(in_scripts == dir_count(self@.config_scripts_dir));
        let n = candidates.len();
        let mut i: usize = 0;
        while i < n && i < probes.len()
            invariant
                n == candidates.len(),
                cands == candidates@.map_values(|p: String| p@),
                cands == resolution_candidates(self@, command@),
                !is_absolute_path(command@),
                in_config == dir_count(self@.config_dir),
                in_scripts == dir_count(self@.config_scripts_dir),
                in_config <= 1,
                in_scripts <= 1,
                0 <= i <= n,
                i <= probes.len(),
                forall|j: int| 0 <= j < i ==> !probes@[j],
            decreases n - i,
        {
            if probes[i] {
                proof {
                    lemma_first_existing_hit(cands, probes@, command@, i as int);
                    lemma_first_hit_at(n as int, probes@, i as int);
                }
                let path = candidates[i].clone();
                assert(path@ == cands[i as int]);
                let source = if i < in_config {
                    ScriptSource::ConfigDir
                } else if i < in_config + in_scripts {
                    ScriptSource::ScriptsDir
                } else {
                    ScriptSource::SearchPath
                };
                return Resolved {
                    command: String::from_str(command),
                    path,
                    source,
                    probes: copy_flags(probes),
                };
            }
            i = i + 1;
        }
        proof {
            lemma_first_existing_miss(cands, probes@, command@);
            lemma_first_hit_none(n as int, probes@);
        }
        Resolved {
            command: String::from_str(command),
            path: String::from_str(command),
            source: ScriptSource::Literal,
            probes: copy_flags(probes),
        }
    }

    /// Where `command` resolves to, given for each candidate (in order)
    /// whether it exists.
    pub fn resolve_with_probes(&self, command: &str, probes: &Vec<bool>) -> (path: String)
        ensures
            path@ == resolution(self@, command@, probes@),
    {
        self.explain_with_probes(command, probes).path
    }

    /// Resolves `command` as [`ScriptResolver::resolve`] does, and tells by
    /// which rule: an absolute path as it is, otherwise the first of the
    /// candidates that exists on disk, else the command itself. Probing stops
    /// at the first candidate found.
    pub fn resolve_explained(&self, command: &str) -> (resolved: Resolved)
        ensures
            resolved.command@ == command@,
            probed_in_order(self@, command@, resolved.probes@),
            resolved.path@ == resolution(self@, command@, resolved.probes@),
            resolved.source == resolution_source(self@, command@, resolved.probes@),
            may_resolve_by(self@, command@, resolved.path@, resolved.source),
    {
        let mut probes: Vec<bool> = Vec::new();
        if !path_is_absolute(command) {
            let candidates = self.candidates(command);
            let n = candidates.len();
            assert(n == resolution_candidates(self@, command@).len());
            let mut i: usize = 0;
            while i < n
                invariant_except_break
                    probes.len() == i,
                    forall|j: int| 0 <= j < i ==> !#[trigger] probes@[j],
                invariant
                    n == candidates.len(),
                    0 <= i <= n,
                ensures
                    probes.len() <= n,
                    forall|j: int| 0 <= j < probes.len() - 1 ==> !#[trigger] probes@[j],
                    probes.len() == n || (probes.len() > 0 && probes@[probes.len() - 1]),
                decreases n - i,
            {
                let found = path_exists(candidates[i].as_str());
                let ghost before = probes@;
                probes.push(found);
                assert(forall|j: int| 0 <= j < i ==> probes@[j] == before[j]);
                if found {
                    assert(probes@[probes.len() - 1]);
                    break;
                }
                i = i + 1;
            }
        }
        let resolved = self.explain_with_probes(command, &probes);
        assert(resolution(self@, command@, probes@) == resolved.path@);
        resolved
    }

    /// Resolves `command` to the path of its script: an absolute path as it
    /// is, otherwise the first of the candidates that exists on disk, else the
    /// command itself. Probing stops at the first candidate found.
    pub fn resolve(&self, command: &str) -> (path: String)
        ensures
            may_resolve_to(self@, command@, path@),
    {
        let resolved = self.resolve_explained(command);
        let ghost probes = choose|probes: Seq<bool>|
            #![trigger resolution(self@, command@, probes)]
            resolution(self@, command@, probes) == resolved.path@ && resolution_source(
                self@,
                command@,
                probes,
            ) == resolved.source;
        assert(resolution(self@, command@, probes) == resolved.path@);
        resolved.path
    }
}


/// Per-action memory: whether it already fired during the current stay in its
/// battery state.
struct ActionRuntime {
    triggered_in_state: bool,
}

/// The flags of a list of action memories.
spec fn runtime_flags(runtime: Seq<ActionRuntime>) -> Seq<bool> {
    runtime.map_values(|r: ActionRuntime| r.triggered_in_state)
}

/// The configured actions and what each remembers between events.
pub struct ActionManager {
    actions: Vec<Action>,
    runtime: Vec<ActionRuntime>,
}

impl ActionManager {
    /// Every action has its memory, and each action's id is its position.
    #[verifier::type_invariant]
    spec fn well_formed(self) -> bool {
        &&& self.runtime.len() == self.actions.len()
        &&& forall|i: int| 0 <= i < self.actions.len() ==> #[trigger] self.actions[i].id == i
    }

    /// The actions, in configuration order.
    pub closed spec fn action_list(&self) -> Seq<Action> {
        self.actions@
    }

    /// For each action, whether it already fired during the current stay in
    /// its state.
    pub closed spec fn triggered(&self) -> Seq<bool> {
        runtime_flags(self.runtime@)
    }

    /// The actions for `specs`, in order, each with its command resolved by
    /// `resolver`; none has fired yet.
    pub fn from_specs(specs: Vec<ActionSpec>, resolver: ScriptResolver) -> (manager: Self)
        ensures
            manager.action_list().len() == specs.len(),
            manager.triggered() == Seq::new(specs.len() as nat, |i: int| false),
            forall|i: int|
                0 <= i < specs.len() ==> {
                    let action = #[trigger] manager.action_list()[i];
                    &&& action.id == i
                    &&& action.mode == specs[i].mode
                    &&& action.trigger == specs[i].trigger
                    &&& may_resolve_to(resolver@, specs[i].command@, action.script@)
                },
    {
        let ghost r = resolver@;
        let ghost sp = specs@;
        let (manager, resolved) = ActionManager::from_specs_explained(specs, resolver);
        assert forall|i: int| 0 <= i < sp.len() implies may_resolve_to(
            r,
            sp[i].command@,
            (#[trigger] manager.action_list()[i]).script@,
        ) by {
            let res = resolved@[i];
            assert(may_resolve_by(r, sp[i].command@, res.path@, res.source));
            let probes = choose|probes: Seq<bool>|
                #![trigger resolution(r, sp[i].command@, probes)]
                resolution(r, sp[i].command@, probes) == res.path@ && resolution_source(
                    r,
                    sp[i].command@,
                    probes,
                ) == res.source;
            assert(resolution(r, sp[i].command@, probes) == manager.action_list()[i].script@);
        }
        manager
    }

    /// As [`ActionManager::from_specs`], also telling for each action how its
    /// command was resolved.
    pub fn from_specs_explained(specs: Vec<ActionSpec>, resolver: ScriptResolver) -> (built: (
        Self,
        Vec<Resolved>,
    ))
        ensures
            built.0.action_list().len() == specs.len(),
            built.1@.len() == specs.len(),
            built.0.triggered() == Seq::new(specs.len() as nat, |i: int| false),
            forall|i: int|
                0 <= i < specs.len() ==> {
                    let action = #[trigger] built.0.action_list()[i];
                    let resolved = built.1@[i];
                    &&& action.id == i
                    &&& action.mode == specs[i].mode
                    &&& action.trigger == specs[i].trigger
                    &&& resolved.command@ == specs[i].command@
                    &&& resolved.path@ == action.script@
                    &&& may_resolve_by(resolver@, specs[i].command@, resolved.path@, resolved.source)
                    &&& probed_in_order(resolver@, specs[i].command@, resolved.probes@)
                    &&& resolved.path@ == resolution(resolver@, specs[i].command@, resolved.probes@)
                    &&& resolved.source == resolution_source(resolver@, specs[i].command@, resolved.probes@)
                },
    {
        let n = specs.len();
        let mut actions: Vec<Action> = Vec::new();
        let mut runtime: Vec<ActionRuntime> = Vec::new();
        let mut explained: Vec<Resolved> = Vec::new();
        let mut i: usize = 0;
        while i < n
            invariant
                n == specs.len(),
                0 <= i <= n,
                actions.len() == i,
                runtime.len() == i,
                explained.len() == i,
                forall|j: int| 0 <= j < i ==> !(#[trigger] runtime@[j]).triggered_in_state,
                forall|j: int|
                    0 <= j < i ==> {
                        let action = #[trigger] actions@[j];
                        let resolved = explained@[j];
                        &&& action.id == j
                        &&& action.mode == specs[j].mode
                        &&& action.trigger == specs[j].trigger
                        &&& resolved.command@ == specs[j].command@
                        &&& resolved.path@ == action.script@
                        &&& may_resolve_by(resolver@, specs[j].command@, resolved.path@, resolved.source)
                        &&& probed_in_order(resolver@, specs[j].command@, resolved.probes@)
                        &&& resolved.path@ == resolution(resolver@, specs[j].command@, resolved.probes@)
                        &&& resolved.source == resolution_source(resolver@, specs[j].command@, resolved.probes@)
                    },
            decreases n - i,
        {
            let spec = &specs[i];
            let resolved = resolver.resolve_explained(spec.command.as_str());
            let script = resolved.path.clone();
            actions.push(Action { id: i, mode: spec.mode, trigger: spec.trigger, script });
            runtime.push(ActionRuntime { triggered_in_state: false });
            explained.push(resolved);
            i = i + 1;
        }
        let manager = ActionManager { actions, runtime };
        assert(manager.triggered() =~= Seq::new(n as nat, |i: int| false));
        (manager, explained)
    }

    /// Whether no action is configured.
    pub fn is_empty(&self) -> (b: bool)
        ensures
            b == (self.action_list().len() == 0),
    {
        self.actions.len() == 0
    }

    /// Applies one status update to every action: an action whose mode does
    /// not match the new state is re-armed; one that fires is returned as a
    /// launch (in action order) and, for `StateEnter` and `Threshold`, stays
    /// quiet until its state is left; a `StateEnter` action that does not fire
    /// is re-armed.
    pub fn handle_event(&mut self, event: StatusEvent) -> (launches: Vec<ScriptLaunch>)
        ensures
            final(self).action_list() == old(self).action_list(),
            final(self).triggered().len() == old(self).triggered().len(),
            forall|i: int|
                0 <= i < old(self).action_list().len() ==> #[trigger] final(self).triggered()[i]
                    == action_step(
                    old(self).action_list()[i].mode,
                    old(self).action_list()[i].trigger,
                    event@,
                    old(self).triggered()[i],
                ).1,
            launches@.map_values(|l: ScriptLaunch| l@) == launches_upto(
                old(self).action_list(),
                old(self).triggered(),
                event@,
                old(self).action_list().len(),
            ),
    {
        proof {
            use_type_invariant(&*self);
        }
        let mut taken = ActionManager { actions: Vec::new(), runtime: Vec::new() };
        std::mem::swap(self, &mut taken);
        let ActionManager { actions, mut runtime } = taken;
        let ghost acts = actions@;
        let ghost trig = runtime_flags(runtime@);
        let n = actions.len();
        let mut launches: Vec<ScriptLaunch> = Vec::new();
        let mut i: usize = 0;
        while i < n
            invariant
                n == acts.len(),
                trig.len() == n,
                0 <= i <= n,
                actions@ == acts,
                runtime.len() == n,
                forall|j: int| 0 <= j < n ==> #[trigger] acts[j].id == j,
                forall|j: int|
                    0 <= j < i ==> #[trigger] runtime_flags(runtime@)[j] == action_step(
                        acts[j].mode,
                        acts[j].trigger,
                        event@,
                        trig[j],
                    ).1,
                forall|j: int| i <= j < n ==> #[trigger] runtime_flags(runtime@)[j] == trig[j],
                launches@.map_values(|l: ScriptLaunch| l@) == launches_upto(
                    acts,
                    trig,
                    event@,
                    i as nat,
                ),
            decreases n - i,
        {
            let action = &actions[i];
            let already = runtime[i].triggered_in_state;
            assert(runtime_flags(runtime@)[i as int] == trig[i as int]);
            let ghost before = launches@;
            let ghost old_flags = runtime_flags(runtime@);
            if !event.state.matches_mode(action.mode) {
                runtime.set(i, ActionRuntime { triggered_in_state: false });
            } else if action.should_fire(&event, already) {
                let launch = ScriptLaunch {
                    action_id: action.id,
                    script: action.script.clone(),
                    mode: action.mode,
                    percentage: event.percentage,
                    device_path: event.device_path.clone(),
                };
                launches.push(launch);
                assert(launches@.map_values(|l: ScriptLaunch| l@) =~= before.map_values(
                    |l: ScriptLaunch| l@,
                ).push(launch_of(i as nat, acts[i as int], event@)));
                if action.trigger.sticky_within_state() {
                    runtime.set(i, ActionRuntime { triggered_in_state: true });
                }
            } else if action.trigger == ActionTrigger::StateEnter {
                runtime.set(i, ActionRuntime { triggered_in_state: false });
            }
            assert forall|j: int| 0 <= j < n && j != i implies #[trigger] runtime_flags(runtime@)[j]
                == old_flags[j] by {}
            i = i + 1;
        }
        let mut rebuilt = ActionManager { actions, runtime };
        std::mem::swap(self, &mut rebuilt);
        launches
    }
}


/// Runs one action through a sequence of events: how many times it fires, and
/// its "already triggered" flag at the end.
pub open spec fn run_action(
    mode: ActionMode,
    trigger: ActionTrigger,
    events: Seq<EventView>,
    triggered: bool,
) -> (nat, bool)
    decreases events.len(),
{
    if events.len() == 0 {
        (0, triggered)
    } else {
        let (fired, next) = action_step(mode, trigger, events[0], triggered);
        let (count, last) = run_action(mode, trigger, events.drop_first(), next);
        (count + if fired { 1nat } else { 0nat }, last)
    }
}

/// Every event of the sequence has the battery in `mode`'s state.
pub open spec fn all_in_state(events: Seq<EventView>, mode: ActionMode) -> bool {
    forall|k: int| 0 <= k < events.len() ==> state_matches_mode(#[trigger] events[k].state, mode)
}

/// Each event after the first reports, as the previous state, the state of
/// the event before it (as the device tracking produces them).
pub open spec fn consecutive_reports(events: Seq<EventView>) -> bool {
    forall|k: int| 1 <= k < events.len() ==> (#[trigger] events[k]).previous_state == Some(events[k - 1].state)
}

/// A threshold action fires at most once while the battery stays in its
/// state, and not at all if it had already fired when the stay began.
pub proof fn law_threshold_fires_at_most_once_per_stay(
    mode: ActionMode,
    level: u8,
    events: Seq<EventView>,
    triggered: bool,
)
    requires
        all_in_state(events, mode),
    ensures
        run_action(mode, ActionTrigger::Threshold(level), events, triggered).0 <= 1,
        triggered ==> run_action(mode, ActionTrigger::Threshold(level), events, triggered).0 == 0,
        triggered ==> run_action(mode, ActionTrigger::Threshold(level), events, triggered).1,
    decreases events.len(),
{
    if events.len() > 0 {
        let rest = events.drop_first();
        assert(state_matches_mode(events[0].state, mode));
        assert(all_in_state(rest, mode)) by {
            assert forall|k: int| 0 <= k < rest.len() implies state_matches_mode(#[trigger] rest[k].state, mode) by {
                assert(rest[k] == events[k + 1]);
            }
        }
        let next = action_step(mode, ActionTrigger::Threshold(level), events[0], triggered).1;
        law_threshold_fires_at_most_once_per_stay(mode, level, rest, next);
    }
}

/// An action's "already fired" flag after the first `k` of `events`, starting
/// from `start` (a new manager starts every action at `false`; each
/// `handle_event` call is one step).
pub open spec fn flag_after(
    mode: ActionMode,
    trigger: ActionTrigger,
    events: Seq<EventView>,
    start: bool,
    k: nat,
) -> bool
    decreases k,
{
    if k == 0 {
        start
    } else {
        action_step(mode, trigger, events[k - 1], flag_after(mode, trigger, events, start, (k - 1) as nat)).1
    }
}

/// Whether the action fires on event `k` of `events`.
pub open spec fn fires_at(
    mode: ActionMode,
    trigger: ActionTrigger,
    events: Seq<EventView>,
    start: bool,
    k: nat,
) -> bool {
    action_step(mode, trigger, events[k as int], flag_after(mode, trigger, events, start, k)).0
}

/// The event's percentage crosses `level` in the direction of `mode`.
pub open spec fn crosses_for_mode(mode: ActionMode, level: u8, event: EventView) -> bool {
    match mode {
        ActionMode::Charging => spec_crossed_up(event.previous_percentage, event.percentage, level),
        ActionMode::Discharging => spec_crossed_down(event.previous_percentage, event.percentage, level),
    }
}

/// Events `j` up to, not including, `k` all have the battery in `mode`'s
/// state.
pub open spec fn in_state_between(events: Seq<EventView>, mode: ActionMode, j: int, k: int) -> bool {
    forall|m: int| j <= m < k ==> state_matches_mode(#[trigger] events[m].state, mode)
}

/// A threshold action's flag is set exactly when it fired earlier and the
/// battery has stayed in its state since.
proof fn lemma_threshold_flag(mode: ActionMode, level: u8, events: Seq<EventView>, k: nat)
    requires
        k <= events.len(),
    ensures
        flag_after(mode, ActionTrigger::Threshold(level), events, false, k) == exists|j: int|
            0 <= j < k && #[trigger] fires_at(mode, ActionTrigger::Threshold(level), events, false, j as nat)
                && in_state_between(events, mode, j, k as int),
    decreases k,
{
    let t = ActionTrigger::Threshold(level);
    if k > 0 {
        let p = (k - 1) as nat;
        lemma_threshold_flag(mode, level, events, p);
        let e = events[p as int];
        if !state_matches_mode(e.state, mode) {
            assert forall|j: int| 0 <= j < k implies !(#[trigger] fires_at(mode, t, events, false, j as nat)
                && in_state_between(events, mode, j, k as int)) by {
                if in_state_between(events, mode, j, k as int) {
                    assert(state_matches_mode(events[p as int].state, mode));
                }
            }
        } else if fires_at(mode, t, events, false, p) {
            assert(in_state_between(events, mode, p as int, k as int));
        } else {
            assert forall|j: int| 0 <= j < p implies in_state_between(events, mode, j, k as int)
                == in_state_between(events, mode, j, p as int) by {
                if in_state_between(events, mode, j, p as int) {
                    assert forall|m: int| j <= m < k implies state_matches_mode(#[trigger] events[m].state, mode) by {
                        if m < p {
                            assert(state_matches_mode(events[m].state, mode));
                        }
                    }
                }
            }
            if flag_after(mode, t, events, false, p) {
                let j = choose|j: int|
                    0 <= j < p && #[trigger] fires_at(mode, t, events, false, j as nat)
                        && in_state_between(events, mode, j, p as int);
                assert(fires_at(mode, t, events, false, j as nat) && in_state_between(events, mode, j, k as int));
            }
            if exists|j: int|
                0 <= j < k && #[trigger] fires_at(mode, t, events, false, j as nat)
                    && in_state_between(events, mode, j, k as int) {
                let j = choose|j: int|
                    0 <= j < k && #[trigger] fires_at(mode, t, events, false, j as nat)
                        && in_state_between(events, mode, j, k as int);
                assert(j != p);
                assert(fires_at(mode, t, events, false, j as nat) && in_state_between(events, mode, j, p as int));
            }
        }
    }
}

/// Over any run of reports starting from a fresh action, a threshold action
/// fires on report `k` exactly when the battery is in its state, the
/// percentage crosses its level in the direction of its mode, and it has not
/// already fired during the current uninterrupted stay in that state.
pub proof fn law_threshold_fires_on_first_crossing_of_each_stay(
    mode: ActionMode,
    level: u8,
    events: Seq<EventView>,
    k: nat,
)
    requires
        k < events.len(),
    ensures
        fires_at(mode, ActionTrigger::Threshold(level), events, false, k) <==> {
            &&& state_matches_mode(events[k as int].state, mode)
            &&& crosses_for_mode(mode, level, events[k as int])
            &&& !exists|j: int|
                0 <= j < k && #[trigger] fires_at(mode, ActionTrigger::Threshold(level), events, false, j as nat)
                    && in_state_between(events, mode, j, k as int + 1)
        },
{
    let t = ActionTrigger::Threshold(level);
    lemma_threshold_flag(mode, level, events, k);
    if state_matches_mode(events[k as int].state, mode) {
        assert forall|j: int| 0 <= j < k implies in_state_between(events, mode, j, k as int + 1)
            == in_state_between(events, mode, j, k as int) by {
            if in_state_between(events, mode, j, k as int) {
                assert forall|m: int| j <= m < k as int + 1 implies state_matches_mode(#[trigger] events[m].state, mode) by {
                    if m < k {
                        assert(state_matches_mode(events[m].state, mode));
                    }
                }
            }
        }
    } else {
        assert forall|j: int| 0 <= j < k implies !#[trigger] in_state_between(events, mode, j, k as int + 1) by {
            if in_state_between(events, mode, j, k as int + 1) {
                assert(state_matches_mode(events[k as int].state, mode));
            }
        }
    }
}

/// The flags an action has across successive `handle_event` calls, starting
/// from `from_specs` (where every flag is `false`), are those of
/// `flag_after`, and the action fires in call `k` exactly when `fires_at`
/// says so.
pub proof fn law_calls_follow_run(
    mode: ActionMode,
    trigger: ActionTrigger,
    events: Seq<EventView>,
    flags: Seq<bool>,
)
    requires
        flags.len() == events.len() + 1,
        flags[0] == false,
        forall|k: int|
            0 <= k < events.len() ==> #[trigger] flags[k + 1] == action_step(mode, trigger, events[k], flags[k]).1,
    ensures
        forall|k: int| 0 <= k <= events.len() ==> #[trigger] flags[k] == flag_after(mode, trigger, events, false, k as nat),
        forall|k: int|
            0 <= k < events.len() ==> #[trigger] action_step(mode, trigger, events[k], flags[k]).0 == fires_at(
                mode,
                trigger,
                events,
                false,
                k as nat,
            ),
    decreases events.len(),
{
    if events.len() > 0 {
        let n = (events.len() - 1) as int;
        let shorter = events.take(n);
        law_calls_follow_run(mode, trigger, shorter, flags.take(n + 1));
        assert forall|k: int| 0 <= k <= n implies #[trigger] flag_after(mode, trigger, shorter, false, k as nat)
            == flag_after(mode, trigger, events, false, k as nat) by {
            lemma_flag_after_prefix(mode, trigger, events, n, k as nat);
        }
        assert forall|k: int| 0 <= k <= events.len() implies #[trigger] flags[k] == flag_after(
            mode,
            trigger,
            events,
            false,
            k as nat,
        ) by {
            if k <= n {
                assert(flags.take(n + 1)[k] == flags[k]);
            } else {
                assert(flags.take(n + 1)[n] == flags[n]);
                assert(flags[n + 1] == action_step(mode, trigger, events[n], flags[n]).1);
            }
        }
    }
}

/// The flags over a prefix of the events are those over the whole run.
proof fn lemma_flag_after_prefix(
    mode: ActionMode,
    trigger: ActionTrigger,
    events: Seq<EventView>,
    n: int,
    k: nat,
)
    requires
        0 <= n <= events.len(),
        k <= n,
    ensures
        flag_after(mode, trigger, events.take(n), false, k) == flag_after(mode, trigger, events, false, k),
    decreases k,
{
    if k > 0 {
        lemma_flag_after_prefix(mode, trigger, events, n, (k - 1) as nat);
        assert(events.take(n)[k - 1] == events[k - 1]);
    }
}

/// A `StateEnter` action fires at most once while the battery stays in its
/// state: after the first report of the stay, the previous state is already
/// its own.
pub proof fn law_state_enter_fires_at_most_once_per_stay(
    mode: ActionMode,
    events: Seq<EventView>,
    triggered: bool,
)
    requires
        all_in_state(events, mode),
        consecutive_reports(events),
    ensures
        run_action(mode, ActionTrigger::StateEnter, events, triggered).0 <= 1,
    decreases events.len(),
{
    if events.len() > 0 {
        let rest = events.drop_first();
        let next = action_step(mode, ActionTrigger::StateEnter, events[0], triggered).1;
        lemma_state_enter_quiet_after_entry(mode, rest, next, events[0].state);
    }
}

/// Within a stay whose reports continue from a state of the stay, a
/// `StateEnter` action does not fire.
proof fn lemma_state_enter_quiet_after_entry(
    mode: ActionMode,
    events: Seq<EventView>,
    triggered: bool,
    before: BatteryState,
)
    requires
        all_in_state(events, mode),
        consecutive_reports(events),
        state_matches_mode(before, mode),
        events.len() > 0 ==> events[0].previous_state == Some(before),
    ensures
        run_action(mode, ActionTrigger::StateEnter, events, triggered).0 == 0,
    decreases events.len(),
{
    if events.len() > 0 {
        let rest = events.drop_first();
        assert(state_matches_mode(events[0].state, mode));
        assert(all_in_state(rest, mode)) by {
            assert forall|k: int| 0 <= k < rest.len() implies state_matches_mode(#[trigger] rest[k].state, mode) by {
                assert(rest[k] == events[k + 1]);
            }
        }
        assert(consecutive_reports(rest)) by {
            assert forall|k: int| 1 <= k < rest.len() implies (#[trigger] rest[k]).previous_state == Some(rest[k - 1].state) by {
                assert(rest[k] == events[k + 1]);
                assert(events[k + 1].previous_state == Some(events[k].state));
            }
        }
        if rest.len() > 0 {
            assert(rest[0] == events[1]);
            assert(events[1].previous_state == Some(events[0].state));
        }
        let next = action_step(mode, ActionTrigger::StateEnter, events[0], triggered).1;
        lemma_state_enter_quiet_after_entry(mode, rest, next, events[0].state);
    }
}

/// An action never fires while the battery is outside its state, and leaving
/// the state re-arms it.
pub proof fn law_outside_state_never_fires_and_rearms(
    mode: ActionMode,
    trigger: ActionTrigger,
    event: EventView,
    triggered: bool,
)
    requires
        !state_matches_mode(event.state, mode),
    ensures
        action_step(mode, trigger, event, triggered) == (false, false),
{
}

/// An `Always` action fires on every report while the battery is in its
/// state.
pub proof fn law_always_fires_in_state(mode: ActionMode, event: EventView, triggered: bool)
    requires
        state_matches_mode(event.state, mode),
    ensures
        action_step(mode, ActionTrigger::Always, event, triggered).0,
{
}

/// A re-armed threshold action fires when the percentage crosses its level in
/// the direction of its mode, even when the level itself is skipped.
pub proof fn law_rearmed_threshold_fires_on_crossing(
    mode: ActionMode,
    level: u8,
    event: EventView,
)
    requires
        state_matches_mode(event.state, mode),
        match mode {
            ActionMode::Charging => spec_crossed_up(event.previous_percentage, event.percentage, level),
            ActionMode::Discharging => spec_crossed_down(event.previous_percentage, event.percentage, level),
        },
    ensures
        action_step(mode, ActionTrigger::Threshold(level), event, false) == (true, true),
{
}

/// With a known previous percentage, a change crosses a level upwards or
/// downwards, never both; a jump over the level counts as a crossing.
pub proof fn law_crossings_exclusive(previous: u8, current: u8, level: u8)
    ensures
        !(spec_crossed_up(Some(previous), current, level) && spec_crossed_down(Some(previous), current, level)),
        previous < level <= current ==> spec_crossed_up(Some(previous), current, level),
        previous > level >= current ==> spec_crossed_down(Some(previous), current, level),
{
}

/// `first_existing` picks a candidate or the fallback.
proof fn lemma_first_existing_is_candidate(c: Seq<Seq<char>>, p: Seq<bool>, f: Seq<char>)
    ensures
        first_existing(c, p, f) == f || c.contains(first_existing(c, p, f)),
    decreases c.len(),
{
    if c.len() > 0 && p.len() > 0 {
        if p[0] {
            assert(c.contains(c[0]));
        } else {
            lemma_first_existing_is_candidate(c.drop_first(), p.drop_first(), f);
            let r = first_existing(c.drop_first(), p.drop_first(), f);
            if r != f {
                let k = choose|k: int| 0 <= k < c.drop_first().len() && c.drop_first()[k] == r;
                assert(c[k + 1] == r);
            }
        }
    }
}

/// A command resolves to itself when absolute; otherwise to one of its
/// candidate paths or, failing those, to itself.
pub proof fn law_resolution_stays_among_candidates(r: ResolverView, command: Seq<char>, path: Seq<char>)
    requires
        may_resolve_to(r, command, path),
    ensures
        is_absolute_path(command) ==> path == command,
        path == command || resolution_candidates(r, command).contains(path),
{
    let probes = choose|probes: Seq<bool>| #[trigger] resolution(r, command, probes) == path;
    if !is_absolute_path(command) {
        lemma_first_existing_is_candidate(resolution_candidates(r, command), probes, command);
    }
}


/// The bytes start with `#!`.
pub open spec fn spec_has_shebang(bytes: Seq<u8>) -> bool {
    bytes.len() >= 2 && bytes[0] == 0x23u8 && bytes[1] == 0x21u8
}

/// The bytes start with the ELF magic `0x7F 'E' 'L' 'F'`.
pub open spec fn spec_is_elf(bytes: Seq<u8>) -> bool {
    bytes.len() >= 4 && bytes[0] == 0x7Fu8 && bytes[1] == 0x45u8 && bytes[2] == 0x4Cu8 && bytes[3]
        == 0x46u8
}

/// What a script's first bytes say of it: empty, runnable (shebang or ELF),
/// or neither.
pub open spec fn spec_header_verdict(header: Seq<u8>) -> Result<(), Seq<char>> {
    if header.len() == 0 {
        Err("file is empty"@)
    } else if spec_has_shebang(header) || spec_is_elf(header) {
        Ok(())
    } else {
        Err("missing shebang and not an ELF binary"@)
    }
}

/// What a script's metadata says of it: not a regular file, not executable
/// by anyone, or fine so far.
pub open spec fn spec_metadata_verdict(is_file: bool, mode: u32) -> Result<(), Seq<char>> {
    if !is_file {
        Err("not a regular file"@)
    } else if mode & 0o111u32 == 0 {
        Err("missing executable bit (chmod +x)"@)
    } else {
        Ok(())
    }
}

/// Whether the bytes start with `#!`.
pub fn has_shebang(bytes: &[u8]) -> (b: bool)
    ensures
        b == spec_has_shebang(bytes@),
{
    bytes.len() >= 2 && bytes[0] == 0x23u8 && bytes[1] == 0x21u8
}

/// Whether the bytes start with the ELF magic.
pub fn is_elf(bytes: &[u8]) -> (b: bool)
    ensures
        b == spec_is_elf(bytes@),
{
    bytes.len() >= 4 && bytes[0] == 0x7Fu8 && bytes[1] == 0x45u8 && bytes[2] == 0x4Cu8 && bytes[3]
        == 0x46u8
}

/// Checks the first bytes read from a script (at most four).
pub fn check_script_header(header: &[u8]) -> (verdict: Result<(), String>)
    ensures
        match verdict {
            Ok(()) => spec_header_verdict(header@) == Ok::<(), Seq<char>>(()),
            Err(e) => spec_header_verdict(header@) == Err::<(), Seq<char>>(e@),
        },
{
    if header.len() == 0 {
        Err(String::from_str("file is empty"))
    } else if has_shebang(header) || is_elf(header) {
        Ok(())
    } else {
        Err(String::from_str("missing shebang and not an ELF binary"))
    }
}

/// Checks a script's metadata: it must be a regular file with an execute
/// bit set.
pub fn check_script_metadata(is_file: bool, mode: u32) -> (verdict: Result<(), String>)
    ensures
        match verdict {
            Ok(()) => spec_metadata_verdict(is_file, mode) == Ok::<(), Seq<char>>(()),
            Err(e) => spec_metadata_verdict(is_file, mode) == Err::<(), Seq<char>>(e@),
        },
{
    if !is_file {
        Err(String::from_str("not a regular file"))
    } else if mode & 0o111u32 == 0 {
        Err(String::from_str("missing executable bit (chmod +x)"))
    } else {
        Ok(())
    }
}

/// The error for a script path that does not exist.
pub fn script_not_found_message(path: &str) -> (message: String)
    ensures
        message@ == "script "@ + path@ + " not found"@,
{
    let mut message = String::from_str("script ");
    message.append(path);
    message.append(" not found");
    message
}

/// The mode argument a script is launched with.
pub fn mode_argument(mode: ActionMode) -> (arg: &'static str)
    ensures
        arg@ == match mode {
            ActionMode::Charging => "charging"@,
            ActionMode::Discharging => "discharging"@,
        },
{
    match mode {
        ActionMode::Charging => "charging",
        ActionMode::Discharging => "discharging",
    }
}


/// A reading crosses a level only across it: with a known previous
/// percentage, downwards exactly when it was above the level and is now at
/// or below it, upwards exactly when it was below and is now at or above; a
/// first reading (no previous percentage) counts when it is at or past the
/// level.
pub proof fn law_crossing_needs_previous_on_the_other_side(previous: u8, current: u8, level: u8)
    ensures
        spec_crossed_down(Some(previous), current, level) <==> (previous > level && current <= level),
        spec_crossed_up(Some(previous), current, level) <==> (previous < level && current >= level),
        spec_crossed_down(None, current, level) <==> current <= level,
        spec_crossed_up(None, current, level) <==> current >= level,
{
}

/// Only the charging state matches charging actions and only the
/// discharging state matches discharging actions; every other UPower state
/// (full, empty, pending, unknown) matches neither.
pub proof fn law_states_matching_a_mode(state: BatteryState, mode: ActionMode)
    ensures
        state_matches_mode(state, mode) <==> ((state == BatteryState::Charging && mode == ActionMode::Charging)
            || (state == BatteryState::Discharging && mode == ActionMode::Discharging)),
        forall|code: u32| !#[trigger] state_matches_mode(BatteryState::Other(code), mode),
{
}

/// A `StateEnter` action fires exactly when the battery is in its state and
/// was not in it at the previous report (or nothing was reported before):
/// coming from any other state, full or unknown ones included, counts as
/// entering.
pub proof fn law_state_enter_fires_on_entering(mode: ActionMode, event: EventView, triggered: bool)
    ensures
        action_step(mode, ActionTrigger::StateEnter, event, triggered).0 <==> (state_matches_mode(
            event.state,
            mode,
        ) && match event.previous_state {
            None => true,
            Some(prev) => !state_matches_mode(prev, mode),
        }),
        state_matches_mode(event.state, mode) && (event.previous_state matches Some(prev) && prev
            != BatteryState::Charging && prev != BatteryState::Discharging) ==> action_step(
            mode,
            ActionTrigger::StateEnter,
            event,
            triggered,
        ).0,
{
}


/// Resolving by probing in order gives the first candidate that exists,
/// whichever list (configuration directory, `scripts`, `$PATH`) it comes
/// from; the command itself only when every candidate was probed and none
/// exists; an absolute command always as it is.
pub proof fn law_resolution_is_first_existing_candidate(r: ResolverView, command: Seq<char>, probes: Seq<bool>)
    requires
        probed_in_order(r, command, probes),
    ensures
        is_absolute_path(command) ==> resolution(r, command, probes) == command,
        !is_absolute_path(command) && probes.len() > 0 && probes[probes.len() - 1] ==> {
            &&& resolution(r, command, probes) == resolution_candidates(r, command)[probes.len() - 1]
            &&& forall|j: int| 0 <= j < probes.len() - 1 ==> !#[trigger] probes[j]
        },
        !is_absolute_path(command) && !(probes.len() > 0 && probes[probes.len() - 1]) ==> {
            &&& resolution(r, command, probes) == command
            &&& probes.len() == resolution_candidates(r, command).len()
            &&& forall|j: int| 0 <= j < probes.len() ==> !#[trigger] probes[j]
        },
{
    if !is_absolute_path(command) {
        let cands = resolution_candidates(r, command);
        if probes.len() > 0 && probes[probes.len() - 1] {
            lemma_first_existing_hit(cands, probes, command, probes.len() - 1);
        } else {
            assert forall|j: int| 0 <= j < probes.len() implies !#[trigger] probes[j] by {
                if j < probes.len() - 1 {
                    assert(!probes[j]);
                }
            }
            lemma_first_existing_miss(cands, probes, command);
        }
    }
}

} // verus!
