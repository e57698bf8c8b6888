//! Upgrades: the targets of an upgrade request, and the order of a cask
//! upgrade as a state machine that a driver runs, performing each action and
//! reporting how it went.
use crate::error::SpsError;
use crate::placeholder::copy_bytes;
use vstd::prelude::*;
use vstd::string::*;

verus! {

/// Options of an upgrade request.
#[derive(Debug, Clone)]
pub struct UpgradeArgs {
    /// Packages named on the command line.
    pub names: Vec<String>,
    /// Upgrade every installed package instead.
    pub all: bool,
    /// Build from source rather than pour bottles.
    pub build_from_source: bool,
}

/// Options handed to the install pipeline.
#[derive(Debug, Clone, Copy, PartialEq, Eq)]
pub struct PipelineFlags {
    pub build_from_source: bool,
    pub include_optional: bool,
    pub skip_recommended: bool,
}

fn clone_strings(v: &Vec<String>) -> (r: Vec<String>)
    ensures
        r@ == v@,
{
    let mut out: Vec<String> = Vec::new();
    let mut i: usize = 0;
    while i < v.len()
        invariant
            i <= v@.len(),
            out@ == v@.subrange(0, i as int),
        decreases v@.len() - i,
    {
        out.push(v[i].clone());
        i = i + 1;
        assert(out@ =~= v@.subrange(0, i as int));
    }
    assert(v@.subrange(0, i as int) =~= v@);
    out
}

impl UpgradeArgs {
    /// The packages to upgrade: every installed one with `all`, else the
    /// names given. An empty result means there is nothing to do.
    pub fn targets(&self, installed: &Vec<String>) -> (r: Vec<String>)
        ensures
            r@ == if self.all {
                installed@
            } else {
                self.names@
            },
    {
        if self.all {
            clone_strings(installed)
        } else {
            clone_strings(&self.names)
        }
    }

    /// The pipeline options of an upgrade: only building from source is
    /// taken from the request; optional and recommended dependencies keep
    /// their defaults.
    pub fn pipeline_flags(&self) -> (r: PipelineFlags)
        ensures
            r == (PipelineFlags {
                build_from_source: self.build_from_source,
                include_optional: false,
                skip_recommended: false,
            }),
    {
        PipelineFlags {
            build_from_source: self.build_from_source,
            include_optional: false,
            skip_recommended: false,
        }
    }
}

/// An installed version of a package.
#[derive(Debug, Clone)]
pub struct InstalledPackageInfo {
    pub name: String,
    pub version: String,
    /// The version directory in the cellar or caskroom.
    pub path: Vec<u8>,
}

/// Why an install runs.
#[derive(Debug, Clone)]
pub enum JobAction {
    Install,
    /// Replacing `from_version`, whose tree stays at `old_install_path`
    /// until the new version is in place.
    Upgrade { from_version: String, old_install_path: Vec<u8> },
}

/// Where a cask upgrade stands.
#[derive(Debug, Clone)]
pub enum UpgradeState {
    Start,
    Uninstalling,
    Installing,
    /// The new install failed with the message; its partial tree is being removed.
    RollingBack(String),
    Cleaning,
    Done,
    Failed,
}

/// How the last action went.
#[derive(Debug, Clone)]
pub enum UpgradeEvent {
    Succeeded,
    Failed(String),
}

/// What the driver does next.
#[derive(Debug, Clone)]
pub enum UpgradeAction {
    /// Undo the old version's artifacts, keeping its version directory.
    SoftUninstallOld,
    /// Install the new version with this job action.
    InstallNew(JobAction),
    /// Delete the old version directory.
    RemoveOldVersionDir(Vec<u8>),
    /// Delete the partial tree of the new version.
    RemoveNewVersionDir,
    /// Nothing is left to do.
    Finish,
    /// Stop with this error; the old tree is still there.
    Abort(SpsError),
}

pub enum StateView {
    Start,
    Uninstalling,
    Installing,
    RollingBack(Seq<char>),
    Cleaning,
    Done,
    Failed,
}

pub open spec fn state_view(s: UpgradeState) -> StateView {
    match s {
        UpgradeState::Start => StateView::Start,
        UpgradeState::Uninstalling => StateView::Uninstalling,
        UpgradeState::Installing => StateView::Installing,
        UpgradeState::RollingBack(m) => StateView::RollingBack(m@),
        UpgradeState::Cleaning => StateView::Cleaning,
        UpgradeState::Done => StateView::Done,
        UpgradeState::Failed => StateView::Failed,
    }
}

pub enum ActionView {
    SoftUninstallOld,
    InstallNew(Seq<char>, Seq<u8>),
    RemoveOldVersionDir(Seq<u8>),
    RemoveNewVersionDir,
    Finish,
    /// An `InstallError` with this message.
    Abort(Seq<char>),
    Other,
}

pub open spec fn action_view(a: UpgradeAction) -> ActionView {
    match a {
        UpgradeAction::SoftUninstallOld => ActionView::SoftUninstallOld,
        UpgradeAction::InstallNew(JobAction::Upgrade { from_version, old_install_path }) =>
            ActionView::InstallNew(from_version@, old_install_path@),
        UpgradeAction::RemoveOldVersionDir(p) => ActionView::RemoveOldVersionDir(p@),
        UpgradeAction::RemoveNewVersionDir => ActionView::RemoveNewVersionDir,
        UpgradeAction::Finish => ActionView::Finish,
        UpgradeAction::Abort(SpsError::InstallError(m)) => ActionView::Abort(m@),
        _ => ActionView::Other,
    }
}

pub open spec fn uninstall_failure(token: Seq<char>, cause: Seq<char>) -> Seq<char> {
    "Failed to soft-uninstall old version during upgrade of "@ + token + ": "@ + cause
}

pub open spec fn install_failure(token: Seq<char>, cause: Seq<char>) -> Seq<char> {
    "Failed to install new version during upgrade of "@ + token + ": "@ + cause
}

/// One transition of a cask upgrade. The old version is soft-uninstalled
/// first; the new one is installed as an upgrade from it; on success the old
/// version directory is removed, on failure the new partial tree is removed
/// and the upgrade stops with an `InstallError`. A failed soft uninstall
/// stops at once.
pub open spec fn upgrade_spec(
    s: StateView,
    e: UpgradeEvent,
    token: Seq<char>,
    old: InstalledPackageInfo,
) -> (StateView, ActionView) {
    match s {
        StateView::Start => (StateView::Uninstalling, ActionView::SoftUninstallOld),
        StateView::Uninstalling => match e {
            UpgradeEvent::Succeeded => (
                StateView::Installing,
                ActionView::InstallNew(old.version@, old.path@),
            ),
            UpgradeEvent::Failed(m) => (
                StateView::Failed,
                ActionView::Abort(uninstall_failure(token, m@)),
            ),
        },
        StateView::Installing => match e {
            UpgradeEvent::Succeeded => (
                StateView::Cleaning,
                ActionView::RemoveOldVersionDir(old.path@),
            ),
            UpgradeEvent::Failed(m) => (StateView::RollingBack(m@), ActionView::RemoveNewVersionDir),
        },
        StateView::RollingBack(m) => (StateView::Failed, ActionView::Abort(install_failure(token, m))),
        StateView::Cleaning => (StateView::Done, ActionView::Finish),
        StateView::Done => (StateView::Done, ActionView::Finish),
        StateView::Failed => (StateView::Failed, ActionView::Finish),
    }
}

fn message(prefix: &str, token: &str, cause: &str) -> (r: String)
    ensures
        r@ == prefix@ + token@ + ": "@ + cause@,
{
    String::from_str(prefix).concat(token).concat(": ").concat(cause)
}

/// The next state and action of a cask upgrade of `token` from `old`,
/// given how the last action went.
pub fn upgrade_step(state: &UpgradeState, event: &UpgradeEvent, token: &str, old: &InstalledPackageInfo) -> (r: (
    UpgradeState,
    UpgradeAction,
))
    ensures
        (state_view(r.0), action_view(r.1)) == upgrade_spec(state_view(*state), *event, token@, *old),
{
    match state {
        UpgradeState::Start => (UpgradeState::Uninstalling, UpgradeAction::SoftUninstallOld),
        UpgradeState::Uninstalling => match event {
            UpgradeEvent::Succeeded => (
                UpgradeState::Installing,
                UpgradeAction::InstallNew(
                    JobAction::Upgrade {
                        from_version: old.version.clone(),
                        old_install_path: copy_bytes(old.path.as_slice()),
                    },
                ),
            ),
            UpgradeEvent::Failed(m) => {
                let msg = message(
                    "Failed to soft-uninstall old version during upgrade of ",
                    token,
                    m.as_str(),
                );
                (UpgradeState::Failed, UpgradeAction::Abort(SpsError::InstallError(msg)))
            },
        },
        UpgradeState::Installing => match event {
            UpgradeEvent::Succeeded => (
                UpgradeState::Cleaning,
                UpgradeAction::RemoveOldVersionDir(copy_bytes(old.path.as_slice())),
            ),
            UpgradeEvent::Failed(m) => (
                UpgradeState::RollingBack(m.clone()),
                UpgradeAction::RemoveNewVersionDir,
            ),
        },
        UpgradeState::RollingBack(m) => {
            let msg = message(
                "Failed to install new version during upgrade of ",
                token,
                m.as_str(),
            );
            (UpgradeState::Failed, UpgradeAction::Abort(SpsError::InstallError(msg)))
        },
        UpgradeState::Cleaning => (UpgradeState::Done, UpgradeAction::Finish),
        UpgradeState::Done => (UpgradeState::Done, UpgradeAction::Finish),
        UpgradeState::Failed => (UpgradeState::Failed, UpgradeAction::Finish),
    }
}

} // verus!
