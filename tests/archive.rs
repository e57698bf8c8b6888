use sps_core::archive::{
    check_entry_links, plan_entry, EntryAction, EntryKind, archive_kind, infer_root_from_entries, join_under, path_components, resolve_entry_path,
    ArchiveKind, PathComponent,
};
use sps_core::error::SpsError;

fn names(v: &[&str]) -> Vec<Vec<u8>> {
    v.iter().map(|s| s.as_bytes().to_vec()).collect()
}

#[test]
fn parent_component_is_refused_naming_the_entry() {
    match resolve_entry_path(b"../etc/passwd", 0) {
        Err(SpsError::Generic(msg)) => assert!(msg.contains("../etc/passwd")),
        other => panic!("expected a generic error, got {:?}", other),
    }
}

#[test]
fn parent_after_strip_is_refused() {
    assert!(matches!(resolve_entry_path(b"pkg/../../x", 1), Err(SpsError::Generic(_))));
    // the parent is stripped away together with the first component
    assert_eq!(resolve_entry_path(b"../x", 1).unwrap(), Some(names(&["x"])));
}

#[test]
fn absolute_entry_is_refused() {
    assert!(matches!(resolve_entry_path(b"/etc/passwd", 0), Err(SpsError::Generic(_))));
}

#[test]
fn single_root_is_inferred_and_stripped() {
    let entries = names(&["foo-1.2/", "foo-1.2/bin/foo", "foo-1.2/share/doc/README"]);
    assert_eq!(infer_root_from_entries(&entries), Some(b"foo-1.2".to_vec()));
    assert_eq!(resolve_entry_path(b"foo-1.2/bin/foo", 1).unwrap(), Some(names(&["bin", "foo"])));
    assert_eq!(resolve_entry_path(b"foo-1.2/", 1).unwrap(), None);
}

#[test]
fn no_single_root() {
    assert_eq!(infer_root_from_entries(&names(&["a/x", "b/y"])), None);
    assert_eq!(infer_root_from_entries(&names(&[])), None);
    assert_eq!(infer_root_from_entries(&names(&["", "/"])), None);
    assert_eq!(infer_root_from_entries(&names(&["../a", "../b"])), None);
    assert_eq!(infer_root_from_entries(&names(&["./a", "./b"])), None);
    assert_eq!(infer_root_from_entries(&names(&["", "a/x", "a//y"])), Some(b"a".to_vec()));
}

#[test]
fn strip_beyond_depth_skips_without_error() {
    assert_eq!(resolve_entry_path(b"a/b/c", 3).unwrap(), None);
    assert_eq!(resolve_entry_path(b"a/b/c", 10).unwrap(), None);
    assert_eq!(resolve_entry_path(b"", 0).unwrap(), None);
}

#[test]
fn current_dir_components_vanish() {
    assert_eq!(resolve_entry_path(b"./a/./b/", 0).unwrap(), Some(names(&["a", "b"])));
    assert_eq!(resolve_entry_path(b"./", 0).unwrap(), Some(Vec::new()));
}

#[test]
fn components_follow_unix_rules() {
    let c = path_components(b"/usr//lib/./x/..");
    assert_eq!(
        c,
        vec![
            PathComponent::RootDir,
            PathComponent::Normal(b"usr".to_vec()),
            PathComponent::Normal(b"lib".to_vec()),
            PathComponent::Normal(b"x".to_vec()),
            PathComponent::ParentDir,
        ]
    );
    assert_eq!(path_components(b"./a"), vec![PathComponent::CurDir, PathComponent::Normal(b"a".to_vec())]);
    assert_eq!(path_components(b"a/."), vec![PathComponent::Normal(b"a".to_vec())]);
    assert!(path_components(b"").is_empty());
}

#[test]
fn resolved_entries_stay_under_the_stage() {
    let n = resolve_entry_path(b"pkg/bin/tool", 1).unwrap().unwrap();
    let p = join_under(b"/tmp/stage", &n);
    assert_eq!(p, b"/tmp/stage/bin/tool".to_vec());
    assert!(p.starts_with(b"/tmp/stage/"));
    assert_eq!(join_under(b"/tmp/stage", &Vec::new()), b"/tmp/stage".to_vec());
}

#[test]
fn resolution_is_repeatable() {
    let a = resolve_entry_path(b"x/y/z", 1).unwrap();
    let b = resolve_entry_path(b"x/y/z", 1).unwrap();
    assert_eq!(a, b);
}

#[test]
fn suffixes_pick_the_decoder() {
    assert_eq!(archive_kind("zip").unwrap(), ArchiveKind::Zip);
    assert_eq!(archive_kind("tar").unwrap(), ArchiveKind::Tar);
    assert_eq!(archive_kind("gz").unwrap(), ArchiveKind::TarGz);
    assert_eq!(archive_kind("tgz").unwrap(), ArchiveKind::TarGz);
    assert_eq!(archive_kind("bz2").unwrap(), ArchiveKind::TarBz2);
    assert_eq!(archive_kind("tbz").unwrap(), ArchiveKind::TarBz2);
    assert_eq!(archive_kind("tbz2").unwrap(), ArchiveKind::TarBz2);
    assert_eq!(archive_kind("xz").unwrap(), ArchiveKind::TarXz);
    assert_eq!(archive_kind("txz").unwrap(), ArchiveKind::TarXz);
    assert!(matches!(archive_kind("rar"), Err(SpsError::Generic(_))));
    assert!(matches!(archive_kind(""), Err(SpsError::Generic(_))));
}

#[test]
fn modes_apply_to_regular_files_only() {
    let f = plan_entry(EntryKind::File, Some(0o755), false);
    assert_eq!(f.action, EntryAction::WriteFile);
    assert_eq!(f.mode, Some(0o755));
    let l = plan_entry(EntryKind::Symlink, Some(0o777), true);
    assert_eq!(l.action, EntryAction::ReplaceWithSymlink);
    assert_eq!(l.mode, None);
    let d = plan_entry(EntryKind::Directory, Some(0o755), false);
    assert_eq!(d.action, EntryAction::CreateDir);
    assert_eq!(d.mode, None);
}

#[test]
fn existing_files_are_kept() {
    let k = plan_entry(EntryKind::File, Some(0o644), true);
    assert_eq!(k.action, EntryAction::Keep);
    assert_eq!(k.mode, None);
}

#[test]
fn errors_name_the_entry_and_the_type() {
    match resolve_entry_path(b"/etc/passwd", 0) {
        Err(SpsError::Generic(m)) => assert_eq!(m, "disallowed component in /etc/passwd"),
        other => panic!("unexpected {:?}", other),
    }
    match resolve_entry_path(b"../etc/passwd", 0) {
        Err(SpsError::Generic(m)) => assert_eq!(m, "unsafe '..' component in ../etc/passwd"),
        other => panic!("unexpected {:?}", other),
    }
    match archive_kind("rar") {
        Err(SpsError::Generic(m)) => assert_eq!(m, "unsupported archive type: rar"),
        other => panic!("unexpected {:?}", other),
    }
}

#[test]
fn entries_below_an_earlier_link_are_refused() {
    let links = vec![names(&["lib", "evil"])];
    assert!(check_entry_links(&links, &names(&["lib", "ok.txt"]), b"lib/ok.txt").is_ok());
    // the link itself may be replaced
    assert!(check_entry_links(&links, &names(&["lib", "evil"]), b"lib/evil").is_ok());
    match check_entry_links(&links, &names(&["lib", "evil", "passwd"]), b"lib/evil/passwd") {
        Err(SpsError::Generic(m)) => assert_eq!(m, "entry passes through a link: lib/evil/passwd"),
        other => panic!("unexpected {:?}", other),
    }
    assert!(check_entry_links(&Vec::new(), &names(&["a"]), b"a").is_ok());
}
