use sps_core::error::SpsError;
use sps_core::upgrade::{
    upgrade_step, InstalledPackageInfo, JobAction, UpgradeAction, UpgradeArgs, UpgradeEvent,
    UpgradeState,
};

fn old_info() -> InstalledPackageInfo {
    InstalledPackageInfo {
        name: "foo".to_string(),
        version: "1.0".to_string(),
        path: b"/opt/sps/Caskroom/foo/1.0".to_vec(),
    }
}

#[test]
fn targets_come_from_names_or_installed() {
    let installed = vec!["a".to_string(), "b".to_string()];
    let named = UpgradeArgs { names: vec!["x".to_string()], all: false, build_from_source: true };
    assert_eq!(named.targets(&installed), vec!["x".to_string()]);
    let all = UpgradeArgs { names: vec![], all: true, build_from_source: false };
    assert_eq!(all.targets(&installed), installed);
    assert!(all.targets(&Vec::new()).is_empty());
    let f = named.pipeline_flags();
    assert!(f.build_from_source && !f.include_optional && !f.skip_recommended);
}

#[test]
fn successful_upgrade_sequence() {
    let o = old_info();
    let (s, a) = upgrade_step(&UpgradeState::Start, &UpgradeEvent::Succeeded, "foo", &o);
    assert!(matches!(a, UpgradeAction::SoftUninstallOld));
    let (s, a) = upgrade_step(&s, &UpgradeEvent::Succeeded, "foo", &o);
    match a {
        UpgradeAction::InstallNew(JobAction::Upgrade { from_version, old_install_path }) => {
            assert_eq!(from_version, "1.0");
            assert_eq!(old_install_path, o.path);
        }
        other => panic!("unexpected {:?}", other),
    }
    let (s, a) = upgrade_step(&s, &UpgradeEvent::Succeeded, "foo", &o);
    assert!(matches!(a, UpgradeAction::RemoveOldVersionDir(ref p) if *p == o.path));
    let (s, a) = upgrade_step(&s, &UpgradeEvent::Succeeded, "foo", &o);
    assert!(matches!(a, UpgradeAction::Finish));
    assert!(matches!(s, UpgradeState::Done));
}

#[test]
fn failed_soft_uninstall_stops() {
    let o = old_info();
    let (s, a) = upgrade_step(&UpgradeState::Uninstalling, &UpgradeEvent::Failed("busy".to_string()), "foo", &o);
    assert!(matches!(s, UpgradeState::Failed));
    match a {
        UpgradeAction::Abort(SpsError::InstallError(m)) => {
            assert_eq!(m, "Failed to soft-uninstall old version during upgrade of foo: busy")
        }
        other => panic!("unexpected {:?}", other),
    }
}

#[test]
fn failed_install_removes_the_new_tree_then_stops() {
    let o = old_info();
    let (s, a) = upgrade_step(&UpgradeState::Installing, &UpgradeEvent::Failed("bad archive".to_string()), "foo", &o);
    assert!(matches!(a, UpgradeAction::RemoveNewVersionDir));
    let (s, a) = upgrade_step(&s, &UpgradeEvent::Succeeded, "foo", &o);
    assert!(matches!(s, UpgradeState::Failed));
    match a {
        UpgradeAction::Abort(SpsError::InstallError(m)) => {
            assert_eq!(m, "Failed to install new version during upgrade of foo: bad archive")
        }
        other => panic!("unexpected {:?}", other),
    }
}
