//! Installing the bundled support files: where they go, whether an existing
//! file is replaced, and the report of what was written and what was kept.
use crate::config::{default_config_dir, spec_config_dir_in, DEFAULT_CONFIG_FILENAME};
use crate::paths::{join_path, joined_path, opt_view, parent_of_path, parent_path};
use vstd::prelude::*;

verus! {

/// What an installation wrote and what it left in place.
#[derive(Debug)]
pub struct InstallReport {
    pub config_dir: String,
    pub written: Vec<String>,
    pub skipped: Vec<String>,
}

impl InstallReport {
    /// Nothing written or skipped yet, for files under `config_dir`.
    pub fn new(config_dir: String) -> (report: Self)
        ensures
            report.config_dir == config_dir,
            report.written@.len() == 0,
            report.skipped@.len() == 0,
    {
        InstallReport { config_dir, written: Vec::new(), skipped: Vec::new() }
    }

    /// Notes that `path` was written.
    pub fn record_written(&mut self, path: String)
        ensures
            final(self).config_dir == old(self).config_dir,
            final(self).written@ == old(self).written@.push(path),
            final(self).skipped@ == old(self).skipped@,
    {
        self.written.push(path);
    }

    /// Notes that `path` existed and was left as it was.
    pub fn record_skipped(&mut self, path: String)
        ensures
            final(self).config_dir == old(self).config_dir,
            final(self).written@ == old(self).written@,
            final(self).skipped@ == old(self).skipped@.push(path),
    {
        self.skipped.push(path);
    }
}

/// Whether a bundled file is written: always when forced, else only when
/// nothing is there yet.
pub fn should_write(present: bool, force: bool) -> (write: bool)
    ensures
        write == (!present || force),
{
    !present || force
}

/// The icon theme directory under the user data directory `base`.
pub open spec fn spec_icon_dir_in(base: Seq<char>) -> Seq<char> {
    joined_path(joined_path(joined_path(joined_path(base, "icons"@), "hicolor"@), "scalable"@), "apps"@)
}

/// The user's systemd unit directory beside this program's configuration
/// directory `config_dir`.
pub open spec fn spec_systemd_user_dir_in(config_dir: Seq<char>) -> Seq<char> {
    let parent = match parent_of_path(config_dir) {
        Some(p) => p,
        None => config_dir,
    };
    joined_path(joined_path(parent, "systemd"@), "user"@)
}

/// Calls `dirs::data_local_dir`. Nothing is claimed of the result: it
/// depends on the environment (`$XDG_DATA_HOME`, `$HOME`).
#[verifier::external_body]
fn user_data_local_dir() -> (dir: Option<String>) {
    match dirs::data_local_dir() {
        Some(p) => Some(p.to_string_lossy().into_owned()),
        None => None,
    }
}

/// The icon theme directory under the user data directory `base`.
pub fn icon_dir_in(base: &str) -> (dir: String)
    ensures
        dir@ == spec_icon_dir_in(base@),
{
    let icons = join_path(base, "icons");
    let theme = join_path(icons.as_str(), "hicolor");
    let scalable = join_path(theme.as_str(), "scalable");
    join_path(scalable.as_str(), "apps")
}

/// The icon theme directory, if the user has a data directory.
pub fn icon_dir() -> (dir: Option<String>)
    ensures
        dir matches Some(d) ==> exists|base: Seq<char>| d@ == #[trigger] spec_icon_dir_in(base),
{
    match user_data_local_dir() {
        Some(base) => Some(icon_dir_in(base.as_str())),
        None => None,
    }
}

/// The systemd unit directory beside `config_dir`.
pub fn systemd_user_dir_in(config_dir: &str) -> (dir: String)
    ensures
        dir@ == spec_systemd_user_dir_in(config_dir@),
{
    let parent = match parent_path(config_dir) {
        Some(p) => p,
        None => String::from_str(config_dir),
    };
    let systemd = join_path(parent.as_str(), "systemd");
    join_path(systemd.as_str(), "user")
}

/// The user's systemd unit directory, if the user has a configuration
/// directory.
pub fn systemd_user_dir() -> (dir: Option<String>)
    ensures
        dir matches Some(d) ==> exists|base: Seq<char>|
            d@ == #[trigger] spec_systemd_user_dir_in(spec_config_dir_in(base)),
{
    match default_config_dir() {
        Some(config_dir) => Some(systemd_user_dir_in(config_dir.as_str())),
        None => None,
    }
}


/// A bundled file: the default configuration, the script, asset or icon at
/// a position of its list, or the systemd unit.
#[derive(Clone, Copy, Debug, PartialEq, Eq, Structural)]
pub enum BundleItem {
    DefaultConfig,
    Script(usize),
    Asset(usize),
    Icon(usize),
    SystemdUnit,
}

/// A list of bundled files installed into one directory.
#[derive(Clone, Copy, Debug, PartialEq, Eq, Structural)]
pub enum FileGroup {
    Scripts,
    Assets,
    Icons,
}

/// One step of an installation.
#[derive(Debug)]
pub enum InstallStep {
    /// Create this directory and its parents.
    CreateDir(String),
    /// Write this bundled file at this path (unless it is there and the
    /// installation is not forced), then make it executable if asked.
    Write { path: String, item: BundleItem, executable: bool },
}

/// The mathematical content of an [`InstallStep`].
pub ghost enum StepView {
    CreateDir(Seq<char>),
    Write(Seq<char>, BundleItem, bool),
}

impl View for InstallStep {
    type V = StepView;

    open spec fn view(&self) -> StepView {
        match self {
            InstallStep::CreateDir(dir) => StepView::CreateDir(dir@),
            InstallStep::Write { path, item, executable } => StepView::Write(path@, *item, *executable),
        }
    }
}

/// The item at position `index` of a group.
pub open spec fn group_item(group: FileGroup, index: usize) -> BundleItem {
    match group {
        FileGroup::Scripts => BundleItem::Script(index),
        FileGroup::Assets => BundleItem::Asset(index),
        FileGroup::Icons => BundleItem::Icon(index),
    }
}

/// Writing each file of a group into `dir`, in list order.
pub open spec fn group_writes(dir: Seq<char>, names: Seq<Seq<char>>, group: FileGroup, executable: bool) -> Seq<StepView> {
    Seq::new(
        names.len(),
        |i: int| StepView::Write(joined_path(dir, names[i]), group_item(group, i as usize), executable),
    )
}

/// The views of a list of names.
pub open spec fn names_view(names: Seq<String>) -> Seq<Seq<char>> {
    names.map_values(|n: String| n@)
}

/// The steps of an installation under `config_dir`: the configuration file,
/// the scripts (made executable) in `scripts/`, the assets in `assets/`, the
/// icons in the icon directory if there is one, and the systemd unit in the
/// unit directory if there is one; each directory created before its files.
pub open spec fn spec_install_plan(
    config_dir: Seq<char>,
    scripts: Seq<Seq<char>>,
    assets: Seq<Seq<char>>,
    icons: Seq<Seq<char>>,
    unit: Seq<char>,
    icon_dir: Option<Seq<char>>,
    systemd_dir: Option<Seq<char>>,
) -> Seq<StepView> {
    let scripts_dir = joined_path(config_dir, "scripts"@);
    let assets_dir = joined_path(config_dir, "assets"@);
    seq![
        StepView::CreateDir(config_dir),
        StepView::Write(joined_path(config_dir, DEFAULT_CONFIG_FILENAME@), BundleItem::DefaultConfig, false),
        StepView::CreateDir(scripts_dir),
    ] + group_writes(scripts_dir, scripts, FileGroup::Scripts, true) + seq![StepView::CreateDir(assets_dir)]
        + group_writes(assets_dir, assets, FileGroup::Assets, false) + match icon_dir {
        Some(dir) => seq![StepView::CreateDir(dir)] + group_writes(dir, icons, FileGroup::Icons, false),
        None => Seq::empty(),
    } + match systemd_dir {
        Some(dir) => seq![
            StepView::CreateDir(dir),
            StepView::Write(joined_path(dir, unit), BundleItem::SystemdUnit, false),
        ],
        None => Seq::empty(),
    }
}

/// The views of a list of steps.
pub open spec fn steps_view(steps: Seq<InstallStep>) -> Seq<StepView> {
    steps.map_values(|s: InstallStep| s@)
}

/// Appends the writes of one group of files into `dir`.
fn push_group_writes(
    steps: &mut Vec<InstallStep>,
    dir: &str,
    names: &Vec<String>,
    group: FileGroup,
    executable: bool,
)
    ensures
        steps_view(final(steps)@) == steps_view(old(steps)@) + group_writes(
            dir@,
            names_view(names@),
            group,
            executable,
        ),
{
    let ghost start = steps_view(steps@);
    let ghost writes = group_writes(dir@, names_view(names@), group, executable);
    let n = names.len();
    let mut i: usize = 0;
    while i < n
        invariant
            n == names@.len(),
            0 <= i <= n,
            writes == group_writes(dir@, names_view(names@), group, executable),
            steps_view(steps@) =~= start + writes.take(i as int),
        decreases n - i,
    {
        let path = join_path(dir, names[i].as_str());
        let item = match group {
            FileGroup::Scripts => BundleItem::Script(i),
            FileGroup::Assets => BundleItem::Asset(i),
            FileGroup::Icons => BundleItem::Icon(i),
        };
        let step = InstallStep::Write { path, item, executable };
        let ghost before = steps@;
        steps.push(step);
        assert(step@ == writes[i as int]);
        assert(steps_view(steps@) =~= steps_view(before).push(step@));
        assert(writes.take(i + 1) =~= writes.take(i as int).push(writes[i as int]));
        i = i + 1;
    }
    assert(writes.take(n as int) =~= writes);
}

/// The steps of an installation: the bundled files by name, and the icon and
/// systemd unit directories (if the user has them).
pub fn install_plan(
    config_dir: &str,
    scripts: &Vec<String>,
    assets: &Vec<String>,
    icons: &Vec<String>,
    unit: &str,
    icon_dir: Option<String>,
    systemd_dir: Option<String>,
) -> (steps: Vec<InstallStep>)
    ensures
        steps_view(steps@) == spec_install_plan(
            config_dir@,
            names_view(scripts@),
            names_view(assets@),
            names_view(icons@),
            unit@,
            opt_view(icon_dir),
            opt_view(systemd_dir),
        ),
{
    let mut steps: Vec<InstallStep> = Vec::new();
    steps.push(InstallStep::CreateDir(String::from_str(config_dir)));
    steps.push(
        InstallStep::Write {
            path: join_path(config_dir, DEFAULT_CONFIG_FILENAME),
            item: BundleItem::DefaultConfig,
            executable: false,
        },
    );
    let scripts_dir = join_path(config_dir, "scripts");
    steps.push(InstallStep::CreateDir(scripts_dir.clone()));
    let ghost head = steps_view(steps@);
    assert(head =~= seq![
        StepView::CreateDir(config_dir@),
        StepView::Write(joined_path(config_dir@, DEFAULT_CONFIG_FILENAME@), BundleItem::DefaultConfig, false),
        StepView::CreateDir(scripts_dir@),
    ]);
    push_group_writes(&mut steps, scripts_dir.as_str(), scripts, FileGroup::Scripts, true);
    let assets_dir = join_path(config_dir, "assets");
    let ghost before_assets = steps_view(steps@);
    steps.push(InstallStep::CreateDir(assets_dir.clone()));
    assert(steps_view(steps@) =~= before_assets.push(StepView::CreateDir(assets_dir@)));
    push_group_writes(&mut steps, assets_dir.as_str(), assets, FileGroup::Assets, false);
    let ghost before_icons = steps_view(steps@);
    match &icon_dir {
        Some(dir) => {
            steps.push(InstallStep::CreateDir(dir.clone()));
            assert(steps_view(steps@) =~= before_icons.push(StepView::CreateDir(dir@)));
            push_group_writes(&mut steps, dir.as_str(), icons, FileGroup::Icons, false);
        },
        None => {},
    }
    let ghost icon_steps = match opt_view(icon_dir) {
        Some(dir) => seq![StepView::CreateDir(dir)] + group_writes(dir, names_view(icons@), FileGroup::Icons, false),
        None => Seq::<StepView>::empty(),
    };
    assert(steps_view(steps@) =~= before_icons + icon_steps);
    let ghost before_unit = steps_view(steps@);
    match &systemd_dir {
        Some(dir) => {
            steps.push(InstallStep::CreateDir(dir.clone()));
            steps.push(
                InstallStep::Write {
                    path: join_path(dir.as_str(), unit),
                    item: BundleItem::SystemdUnit,
                    executable: false,
                },
            );
        },
        None => {},
    }
    let ghost unit_steps = match opt_view(systemd_dir) {
        Some(dir) => seq![
            StepView::CreateDir(dir),
            StepView::Write(joined_path(dir, unit@), BundleItem::SystemdUnit, false),
        ],
        None => Seq::<StepView>::empty(),
    };
    assert(steps_view(steps@) =~= before_unit + unit_steps);
    steps
}

} // verus!
