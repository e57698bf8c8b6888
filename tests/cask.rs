use sps_core::cask::{
    place_step, PlaceAction, PlaceStage,
    destination_dir, placement_order, placement_records, plan_placements, soft_uninstall_plan,
    stanza_names, ArtifactDef, Cask, Config, InstalledArtifact, Placement, StanzaKind,
    StanzaValue, UndoAction,
};

fn config() -> Config {
    Config {
        home: b"/Users/me".to_vec(),
        applications: b"/Applications".to_vec(),
        cellar: b"/opt/sps/Cellar".to_vec(),
        caskroom: b"/opt/sps/Caskroom".to_vec(),
    }
}

fn list(items: &[Option<&str>]) -> StanzaValue {
    StanzaValue::List(items.iter().map(|i| i.map(|s| s.as_bytes().to_vec())).collect())
}

fn def(entries: Vec<(&str, StanzaValue)>) -> ArtifactDef {
    ArtifactDef { entries: entries.into_iter().map(|(k, v)| (k.as_bytes().to_vec(), v)).collect() }
}

#[test]
fn first_matching_stanza_wins() {
    let cask = Cask {
        token: "foo".to_string(),
        version: Some("1.0".to_string()),
        artifacts: Some(vec![
            def(vec![("uninstall", StanzaValue::Other)]),
            def(vec![("app", StanzaValue::Other)]),
            def(vec![("app", list(&[Some("Foo.app"), None, Some("Bar.app")]))]),
            def(vec![("app", list(&[Some("Second.app")]))]),
        ]),
    };
    assert_eq!(stanza_names(&cask, StanzaKind::App), Some(vec![b"Foo.app".to_vec(), b"Bar.app".to_vec()]));
    assert_eq!(stanza_names(&cask, StanzaKind::Font), None);
    let none = Cask { token: "x".to_string(), version: None, artifacts: None };
    assert_eq!(stanza_names(&none, StanzaKind::App), None);
}

#[test]
fn destinations_follow_the_table() {
    let c = config();
    assert_eq!(destination_dir(StanzaKind::App, &c), b"/Applications".to_vec());
    assert_eq!(destination_dir(StanzaKind::Suite, &c), b"/Applications".to_vec());
    assert_eq!(destination_dir(StanzaKind::Font, &c), b"/Users/me/Library/Fonts".to_vec());
    assert_eq!(destination_dir(StanzaKind::Service, &c), b"/Users/me/Library/Services".to_vec());
    assert_eq!(destination_dir(StanzaKind::ScreenSaver, &c), b"/Users/me/Library/Screen Savers".to_vec());
    assert_eq!(destination_dir(StanzaKind::Dictionary, &c), b"/Users/me/Library/Dictionaries".to_vec());
    assert_eq!(destination_dir(StanzaKind::Colorpicker, &c), b"/Users/me/Library/ColorPickers".to_vec());
}

#[test]
fn app_placement_records_bundle_and_link() {
    let c = config();
    let version_dir = c.cask_version_dir("foo", "1.0");
    assert_eq!(version_dir, b"/opt/sps/Caskroom/foo/1.0".to_vec());
    let plan = plan_placements(&vec![b"Foo.app".to_vec()], b"/tmp/stage", b"/Applications", &version_dir);
    assert_eq!(plan.len(), 1);
    assert_eq!(plan[0].source, b"/tmp/stage/Foo.app".to_vec());
    assert_eq!(plan[0].destination, b"/Applications/Foo.app".to_vec());
    assert_eq!(plan[0].link, b"/opt/sps/Caskroom/foo/1.0/Foo.app".to_vec());
    let recs = placement_records(StanzaKind::App, &plan[0]);
    assert_eq!(recs.len(), 2);
    assert!(matches!(&recs[0], InstalledArtifact::AppBundle { path } if path == b"/Applications/Foo.app"));
    match &recs[1] {
        InstalledArtifact::CaskroomLink { link_path, target_path } => {
            assert_eq!(link_path, &plan[0].link);
            assert_eq!(target_path, &plan[0].destination);
        }
        other => panic!("unexpected {:?}", other),
    }
}

#[test]
fn other_kinds_record_moved_resources() {
    let p = Placement {
        source: b"/s/F.ttf".to_vec(),
        destination: b"/Users/me/Library/Fonts/F.ttf".to_vec(),
        link: b"/c/F.ttf".to_vec(),
    };
    let recs = placement_records(StanzaKind::Font, &p);
    assert!(matches!(&recs[0], InstalledArtifact::MovedResource { path } if path == &p.destination));
    assert!(matches!(&recs[1], InstalledArtifact::CaskroomLink { target_path, .. } if target_path == &p.destination));
}

#[test]
fn app_bearing_kinds_come_first() {
    let o = placement_order();
    assert_eq!(o[0], StanzaKind::App);
    assert_eq!(o[1], StanzaKind::Suite);
    assert_eq!(o.len(), 7);
}

#[test]
fn soft_uninstall_undoes_in_reverse() {
    let recs = vec![
        InstalledArtifact::AppBundle { path: b"/Applications/Foo.app".to_vec() },
        InstalledArtifact::CaskroomLink { link_path: b"/c/Foo.app".to_vec(), target_path: b"/Applications/Foo.app".to_vec() },
        InstalledArtifact::Launchd { label: b"com.foo".to_vec() },
    ];
    let plan = soft_uninstall_plan(&recs);
    assert_eq!(plan.len(), 3);
    assert!(matches!(&plan[0], UndoAction::UnloadJob(l) if l == b"com.foo"));
    assert!(matches!(&plan[1], UndoAction::RemoveLink(l) if l == b"/c/Foo.app"));
    assert!(matches!(&plan[2], UndoAction::RemovePath(p) if p == b"/Applications/Foo.app"));
    assert!(soft_uninstall_plan(&Vec::new()).is_empty());
}

#[test]
fn cellar_dir_of_a_formula() {
    assert_eq!(config().formula_cellar_dir("wget"), b"/opt/sps/Cellar/wget".to_vec());
}

fn run_place(outcomes: &[bool]) -> Vec<PlaceAction> {
    let mut stage = PlaceStage::Start;
    let mut ok = true;
    let mut actions = Vec::new();
    let mut results = outcomes.iter();
    loop {
        let (next, action) = place_step(stage, ok);
        stage = next;
        actions.push(action);
        if matches!(action, PlaceAction::Finish | PlaceAction::Skip | PlaceAction::Fail) {
            return actions;
        }
        ok = *results.next().unwrap_or(&true);
    }
}

#[test]
fn placement_steps() {
    // source present, rename works, destination there, link made
    assert_eq!(run_place(&[true, true, true, true, true]), vec![PlaceAction::CheckSource, PlaceAction::RemoveDestination, PlaceAction::Move, PlaceAction::CheckDestination, PlaceAction::LinkAndRecord, PlaceAction::Finish]);
    // missing source is skipped
    assert_eq!(run_place(&[false]), vec![PlaceAction::CheckSource, PlaceAction::Skip]);
    // rename fails, copy is tried, the result is missing
    assert_eq!(run_place(&[true, true, false, true, false]), vec![PlaceAction::CheckSource, PlaceAction::RemoveDestination, PlaceAction::Move, PlaceAction::Copy, PlaceAction::CheckDestination, PlaceAction::Fail]);
}
