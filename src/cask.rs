//! Cask artifact placement: which names a cask declares for a stanza kind,
//! where each kind goes, and the records that placing an artifact leaves.
use crate::archive::{join_spec, join_under, names_view};
use crate::placeholder::copy_bytes;
use vstd::prelude::*;
use vstd::string::StringSliceAdditionalSpecFns;

verus! {

/// Locations the installer works with.
#[derive(Debug, Clone)]
pub struct Config {
    /// The user's home directory.
    pub home: Vec<u8>,
    /// Where application bundles go, `/Applications` by default.
    pub applications: Vec<u8>,
    /// Root of the per-formula install trees.
    pub cellar: Vec<u8>,
    /// Root of the per-cask version directories.
    pub caskroom: Vec<u8>,
}

impl Config {
    /// `<cellar>/<name>`.
    pub fn formula_cellar_dir(&self, name: &str) -> (r: Vec<u8>)
        ensures
            r@ == join_spec(self.cellar@, seq![name.spec_bytes()]),
    {
        let mut names: Vec<Vec<u8>> = Vec::new();
        names.push(copy_bytes(name.as_bytes()));
        assert(names_view(names@) =~= seq![name.spec_bytes()]);
        join_under(self.cellar.as_slice(), &names)
    }

    /// `<caskroom>/<token>/<version>`.
    pub fn cask_version_dir(&self, token: &str, version: &str) -> (r: Vec<u8>)
        ensures
            r@ == join_spec(self.caskroom@, seq![token.spec_bytes(), version.spec_bytes()]),
    {
        let mut names: Vec<Vec<u8>> = Vec::new();
        names.push(copy_bytes(token.as_bytes()));
        names.push(copy_bytes(version.as_bytes()));
        assert(names_view(names@) =~= seq![token.spec_bytes(), version.spec_bytes()]);
        join_under(self.caskroom.as_slice(), &names)
    }
}

/// Kinds of move-and-link stanza.
#[derive(Debug, Clone, Copy, PartialEq, Eq)]
pub enum StanzaKind {
    App,
    Suite,
    Font,
    Service,
    ScreenSaver,
    Dictionary,
    Colorpicker,
}

/// The order in which stanza kinds are placed: bundles that carry an
/// application first, so later steps see the main bundle in place.
pub fn placement_order() -> (r: Vec<StanzaKind>)
    ensures
        r@ == seq![
            StanzaKind::App,
            StanzaKind::Suite,
            StanzaKind::Font,
            StanzaKind::Service,
            StanzaKind::ScreenSaver,
            StanzaKind::Dictionary,
            StanzaKind::Colorpicker,
        ],
{
    let mut v: Vec<StanzaKind> = Vec::new();
    v.push(StanzaKind::App);
    v.push(StanzaKind::Suite);
    v.push(StanzaKind::Font);
    v.push(StanzaKind::Service);
    v.push(StanzaKind::ScreenSaver);
    v.push(StanzaKind::Dictionary);
    v.push(StanzaKind::Colorpicker);
    v
}

pub open spec fn ascii(s: Seq<char>) -> Seq<u8> {
    s.map_values(|c: char| c as u8)
}

/// The key of the stanza in a cask's artifact list.
pub open spec fn stanza_key(k: StanzaKind) -> Seq<u8> {
    match k {
        StanzaKind::App => ascii("app"@),
        StanzaKind::Suite => ascii("suite"@),
        StanzaKind::Font => ascii("font"@),
        StanzaKind::Service => ascii("service"@),
        StanzaKind::ScreenSaver => ascii("screen_saver"@),
        StanzaKind::Dictionary => ascii("dictionary"@),
        StanzaKind::Colorpicker => ascii("colorpicker"@),
    }
}

/// The directory under the user's library for a kind, none for bundles
/// that go to the applications directory.
pub open spec fn library_subdir(k: StanzaKind) -> Option<Seq<u8>> {
    match k {
        StanzaKind::App | StanzaKind::Suite => None,
        StanzaKind::Font => Some(ascii("Fonts"@)),
        StanzaKind::Service => Some(ascii("Services"@)),
        StanzaKind::ScreenSaver => Some(
            ascii("Screen Savers"@),
        ),
        StanzaKind::Dictionary => Some(
            ascii("Dictionaries"@),
        ),
        StanzaKind::Colorpicker => Some(
            ascii("ColorPickers"@),
        ),
    }
}

pub open spec fn library() -> Seq<u8> {
    ascii("Library"@)
}

/// Where a kind's artifacts are moved.
pub open spec fn destination_spec(k: StanzaKind, c: Config) -> Seq<u8> {
    match library_subdir(k) {
        None => c.applications@,
        Some(sub) => join_spec(c.home@, seq![library(), sub]),
    }
}

pub(crate) fn ascii_bytes(s: &str) -> (r: Vec<u8>)
    requires
        vstd::string::is_ascii(s),
    ensures
        r@ == ascii(s@),
{
    let b = s.as_bytes();
    proof {
        vstd::string::is_ascii_spec_bytes(s);
    }
    let r = copy_bytes(b);
    assert(r@ =~= ascii(s@));
    r
}

} // verus!

verus! {

/// The directory a kind's artifacts are moved to.
pub fn destination_dir(kind: StanzaKind, config: &Config) -> (r: Vec<u8>)
    ensures
        r@ == destination_spec(kind, *config),
{
    let sub = match kind {
        StanzaKind::App | StanzaKind::Suite => {
            return copy_bytes(config.applications.as_slice());
        },
        StanzaKind::Font => {
            proof {
                reveal_strlit("Fonts");
            }
            ascii_bytes("Fonts")
        },
        StanzaKind::Service => {
            proof {
                reveal_strlit("Services");
            }
            ascii_bytes("Services")
        },
        StanzaKind::ScreenSaver => {
            proof {
                reveal_strlit("Screen Savers");
            }
            ascii_bytes("Screen Savers")
        },
        StanzaKind::Dictionary => {
            proof {
                reveal_strlit("Dictionaries");
            }
            ascii_bytes("Dictionaries")
        },
        StanzaKind::Colorpicker => {
            proof {
                reveal_strlit("ColorPickers");
            }
            ascii_bytes("ColorPickers")
        },
    };
    let mut names: Vec<Vec<u8>> = Vec::new();
    proof {
        reveal_strlit("Library");
    }
    names.push(ascii_bytes("Library"));
    names.push(sub);
    assert(names_view(names@) =~= seq![library(), library_subdir(kind).unwrap()]);
    join_under(config.home.as_slice(), &names)
}

} // verus!

verus! {

/// The key of a stanza kind, as bytes.
pub fn stanza_key_bytes(kind: StanzaKind) -> (r: Vec<u8>)
    ensures
        r@ == stanza_key(kind),
{
    match kind {
        StanzaKind::App => {
            proof {
                reveal_strlit("app");
            }
            ascii_bytes("app")
        },
        StanzaKind::Suite => {
            proof {
                reveal_strlit("suite");
            }
            ascii_bytes("suite")
        },
        StanzaKind::Font => {
            proof {
                reveal_strlit("font");
            }
            ascii_bytes("font")
        },
        StanzaKind::Service => {
            proof {
                reveal_strlit("service");
            }
            ascii_bytes("service")
        },
        StanzaKind::ScreenSaver => {
            proof {
                reveal_strlit("screen_saver");
            }
            ascii_bytes("screen_saver")
        },
        StanzaKind::Dictionary => {
            proof {
                reveal_strlit("dictionary");
            }
            ascii_bytes("dictionary")
        },
        StanzaKind::Colorpicker => {
            proof {
                reveal_strlit("colorpicker");
            }
            ascii_bytes("colorpicker")
        },
    }
}

// ----- Artifact declarations -----

/// The value of one key of an artifact declaration: a list whose items are
/// strings or something else, or a value that is not a list.
#[derive(Debug, Clone)]
pub enum StanzaValue {
    List(Vec<Option<Vec<u8>>>),
    Other,
}

/// One entry of a cask's artifact list: the keys of an object, in order;
/// an entry that is not an object has none.
#[derive(Debug, Clone)]
pub struct ArtifactDef {
    pub entries: Vec<(Vec<u8>, StanzaValue)>,
}

/// The parts of a cask definition that installation reads.
#[derive(Debug, Clone)]
pub struct Cask {
    pub token: String,
    pub version: Option<String>,
    pub artifacts: Option<Vec<ArtifactDef>>,
}

pub open spec fn value_view(v: StanzaValue) -> Option<Seq<Option<Seq<u8>>>> {
    match v {
        StanzaValue::List(items) => Some(
            items@.map_values(
                |i: Option<Vec<u8>>|
                    match i {
                        Some(s) => Some(s@),
                        None => None,
                    },
            ),
        ),
        StanzaValue::Other => None,
    }
}

/// The value stored under `key` in an object's entries: the first with that key.
pub open spec fn value_for(es: Seq<(Vec<u8>, StanzaValue)>, key: Seq<u8>) -> Option<
    Option<Seq<Option<Seq<u8>>>>,
>
    decreases es.len(),
{
    if es.len() == 0 {
        None
    } else if es[0].0@ == key {
        Some(value_view(es[0].1))
    } else {
        value_for(es.drop_first(), key)
    }
}

/// The strings of a list, in order; other items are passed over.
pub open spec fn strings_of(items: Seq<Option<Seq<u8>>>) -> Seq<Seq<u8>>
    decreases items.len(),
{
    if items.len() == 0 {
        Seq::empty()
    } else {
        let prev = strings_of(items.drop_last());
        match items.last() {
            Some(s) => prev.push(s),
            None => prev,
        }
    }
}

/// The names of the first declaration that holds a list under `key`.
pub open spec fn stanza_names_spec(defs: Seq<ArtifactDef>, key: Seq<u8>) -> Option<Seq<Seq<u8>>>
    decreases defs.len(),
{
    if defs.len() == 0 {
        None
    } else {
        match value_for(defs[0].entries@, key) {
            Some(Some(items)) => Some(strings_of(items)),
            _ => stanza_names_spec(defs.drop_first(), key),
        }
    }
}

fn lookup_list<'a>(entries: &'a Vec<(Vec<u8>, StanzaValue)>, key: &[u8]) -> (r: Option<
    &'a Vec<Option<Vec<u8>>>,
>)
    ensures
        match r {
            Some(items) => value_for(entries@, key@) == Some(value_view(StanzaValue::List(*items))),
            None => !(value_for(entries@, key@) matches Some(Some(_))),
        },
{
    let mut k: usize = 0;
    assert(entries@.subrange(0, entries@.len() as int) =~= entries@);
    while k < entries.len()
        invariant
            k <= entries@.len(),
            value_for(entries@, key@) == value_for(entries@.subrange(k as int, entries@.len() as int), key@),
        decreases entries@.len() - k,
    {
        let ghost rest = entries@.subrange(k as int, entries@.len() as int);
        assert(rest.drop_first() =~= entries@.subrange(k + 1, entries@.len() as int));
        if crate::archive::bytes_equal(entries[k].0.as_slice(), key) {
            match &entries[k].1 {
                StanzaValue::List(items) => {
                    return Some(items);
                },
                StanzaValue::Other => {
                    return None;
                },
            }
        }
        k = k + 1;
    }
    None
}

/// The names that a cask declares for a stanza kind: those of the first
/// declaration holding a list under the kind's key, strings only. Later
/// declarations of the same kind are ignored.
pub fn stanza_names(cask: &Cask, kind: StanzaKind) -> (r: Option<Vec<Vec<u8>>>)
    ensures
        match cask.artifacts {
            Some(defs) => match r {
                Some(v) => stanza_names_spec(defs@, stanza_key(kind)) == Some(names_view(v@)),
                None => stanza_names_spec(defs@, stanza_key(kind)) is None,
            },
            None => r is None,
        },
{
    let defs = match &cask.artifacts {
        Some(d) => d,
        None => return None,
    };
    let key = stanza_key_bytes(kind);
    let mut k: usize = 0;
    assert(defs@.subrange(0, defs@.len() as int) =~= defs@);
    while k < defs.len()
        invariant
            key@ == stanza_key(kind),
            cask.artifacts == Some(*defs),
            k <= defs@.len(),
            stanza_names_spec(defs@, key@) == stanza_names_spec(
                defs@.subrange(k as int, defs@.len() as int),
                key@,
            ),
        decreases defs@.len() - k,
    {
        let ghost rest = defs@.subrange(k as int, defs@.len() as int);
        assert(rest.drop_first() =~= defs@.subrange(k + 1, defs@.len() as int));
        assert(rest[0] == defs@[k as int]);
        match lookup_list(&defs[k].entries, key.as_slice()) {
            Some(items) => {
                let ghost iv = value_view(StanzaValue::List(*items))->Some_0;
                let mut names: Vec<Vec<u8>> = Vec::new();
                let mut i: usize = 0;
                assert(iv.subrange(0, 0) =~= Seq::<Option<Seq<u8>>>::empty());
                while i < items.len()
                    invariant
                        iv == value_view(StanzaValue::List(*items))->Some_0,
                        key@ == stanza_key(kind),
                        cask.artifacts == Some(*defs),
                        k < defs@.len(),
                        rest == defs@.subrange(k as int, defs@.len() as int),
                        stanza_names_spec(defs@, key@) == stanza_names_spec(rest, key@),
                        i <= items@.len(),
                        names_view(names@) == strings_of(iv.subrange(0, i as int)),
                    decreases items@.len() - i,
                {
                    assert(iv.subrange(0, i + 1).drop_last() =~= iv.subrange(0, i as int));
                    match &items[i] {
                        Some(s) => {
                            let ghost before = names_view(names@);
                            names.push(copy_bytes(s.as_slice()));
                            assert(names_view(names@) =~= before.push(s@));
                        },
                        None => {},
                    }
                    i = i + 1;
                }
                assert(iv.subrange(0, i as int) =~= iv);
                assert(value_for(rest[0].entries@, key@) == Some(Some(iv)));
                assert(stanza_names_spec(rest, key@) == Some(strings_of(iv)));
                return Some(names);
            },
            None => {},
        }
        k = k + 1;
    }
    None
}

} // verus!

verus! {

// ----- Installed artifacts -----

/// A side effect of installation, recorded so that removal can undo it.
#[derive(Debug, Clone)]
pub enum InstalledArtifact {
    /// A bundle placed in the applications directory.
    AppBundle { path: Vec<u8> },
    /// Any other bundle moved into a library directory.
    MovedResource { path: Vec<u8> },
    /// A link from the package's version directory to a moved artifact.
    CaskroomLink { link_path: Vec<u8>, target_path: Vec<u8> },
    /// A link in a public directory to an installed executable.
    BinaryLink { link_path: Vec<u8>, target_path: Vec<u8> },
    /// A package receipt registered by an installer package.
    PkgInstaller { id: Vec<u8> },
    /// A loaded launchd job.
    Launchd { label: Vec<u8> },
    /// A path to be moved to the trash on removal.
    ZapTrash { path: Vec<u8> },
}

/// An artifact record as plain values.
pub enum ArtifactView {
    AppBundle(Seq<u8>),
    MovedResource(Seq<u8>),
    CaskroomLink(Seq<u8>, Seq<u8>),
    BinaryLink(Seq<u8>, Seq<u8>),
    PkgInstaller(Seq<u8>),
    Launchd(Seq<u8>),
    ZapTrash(Seq<u8>),
}

pub open spec fn artifact_view(a: InstalledArtifact) -> ArtifactView {
    match a {
        InstalledArtifact::AppBundle { path } => ArtifactView::AppBundle(path@),
        InstalledArtifact::MovedResource { path } => ArtifactView::MovedResource(path@),
        InstalledArtifact::CaskroomLink { link_path, target_path } => ArtifactView::CaskroomLink(
            link_path@,
            target_path@,
        ),
        InstalledArtifact::BinaryLink { link_path, target_path } => ArtifactView::BinaryLink(
            link_path@,
            target_path@,
        ),
        InstalledArtifact::PkgInstaller { id } => ArtifactView::PkgInstaller(id@),
        InstalledArtifact::Launchd { label } => ArtifactView::Launchd(label@),
        InstalledArtifact::ZapTrash { path } => ArtifactView::ZapTrash(path@),
    }
}

pub open spec fn artifacts_view(s: Seq<InstalledArtifact>) -> Seq<ArtifactView> {
    s.map_values(|a: InstalledArtifact| artifact_view(a))
}

/// Where one declared name is taken from, moved to, and linked from.
#[derive(Debug, Clone)]
pub struct Placement {
    pub source: Vec<u8>,
    pub destination: Vec<u8>,
    pub link: Vec<u8>,
}

/// `dir/name`.
pub open spec fn child(dir: Seq<u8>, name: Seq<u8>) -> Seq<u8> {
    join_spec(dir, seq![name])
}

fn child_path(dir: &[u8], name: &[u8]) -> (r: Vec<u8>)
    ensures
        r@ == child(dir@, name@),
{
    let mut names: Vec<Vec<u8>> = Vec::new();
    names.push(copy_bytes(name));
    assert(names_view(names@) =~= seq![name@]);
    join_under(dir, &names)
}

/// One placement per name: from `stage/name`, to `dest_dir/name`, linked
/// at `version_dir/name`.
pub fn plan_placements(names: &Vec<Vec<u8>>, stage: &[u8], dest_dir: &[u8], version_dir: &[u8]) -> (r:
    Vec<Placement>)
    ensures
        r@.len() == names@.len(),
        forall|i: int|
            0 <= i < r@.len() ==> {
                &&& #[trigger] r@[i].source@ == child(stage@, names@[i]@)
                &&& r@[i].destination@ == child(dest_dir@, names@[i]@)
                &&& r@[i].link@ == child(version_dir@, names@[i]@)
            },
{
    let mut out: Vec<Placement> = Vec::new();
    let mut k: usize = 0;
    while k < names.len()
        invariant
            k <= names@.len(),
            out@.len() == k,
            forall|i: int|
                0 <= i < k ==> {
                    &&& #[trigger] out@[i].source@ == child(stage@, names@[i]@)
                    &&& out@[i].destination@ == child(dest_dir@, names@[i]@)
                    &&& out@[i].link@ == child(version_dir@, names@[i]@)
                },
        decreases names@.len() - k,
    {
        let n = names[k].as_slice();
        let p = Placement {
            source: child_path(stage, n),
            destination: child_path(dest_dir, n),
            link: child_path(version_dir, n),
        };
        out.push(p);
        k = k + 1;
    }
    out
}

/// The records that placing one artifact leaves: the moved bundle, then the
/// link to it from the version directory.
pub open spec fn records_spec(kind: StanzaKind, destination: Seq<u8>, link: Seq<u8>) -> Seq<
    ArtifactView,
> {
    let moved = match kind {
        StanzaKind::App | StanzaKind::Suite => ArtifactView::AppBundle(destination),
        _ => ArtifactView::MovedResource(destination),
    };
    seq![moved, ArtifactView::CaskroomLink(link, destination)]
}

/// The records for one placement of a stanza of `kind`.
pub fn placement_records(kind: StanzaKind, p: &Placement) -> (r: Vec<InstalledArtifact>)
    ensures
        artifacts_view(r@) == records_spec(kind, p.destination@, p.link@),
{
    let mut out: Vec<InstalledArtifact> = Vec::new();
    let path = copy_bytes(p.destination.as_slice());
    match kind {
        StanzaKind::App | StanzaKind::Suite => out.push(InstalledArtifact::AppBundle { path }),
        _ => out.push(InstalledArtifact::MovedResource { path }),
    }
    out.push(
        InstalledArtifact::CaskroomLink {
            link_path: copy_bytes(p.link.as_slice()),
            target_path: copy_bytes(p.destination.as_slice()),
        },
    );
    assert(artifacts_view(out@) =~= records_spec(kind, p.destination@, p.link@));
    out
}

/// Every link that a placement records points at the path that the same
/// placement records as moved.
pub proof fn lemma_links_target_moved_path(kind: StanzaKind, destination: Seq<u8>, link: Seq<u8>)
    ensures
        forall|i: int|
            0 <= i < records_spec(kind, destination, link).len() ==> (#[trigger] records_spec(
                kind,
                destination,
                link,
            )[i] matches ArtifactView::CaskroomLink(l, t) ==> l == link && t == destination && (
            records_spec(kind, destination, link)[0] matches ArtifactView::AppBundle(p)
                ==> p == t) && (records_spec(kind, destination, link)[0] matches ArtifactView::MovedResource(
                p,
            ) ==> p == t)),
{
}

// ----- Removal -----

/// One step of undoing an installation.
#[derive(Debug, Clone)]
pub enum UndoAction {
    /// Remove a symbolic link.
    RemoveLink(Vec<u8>),
    /// Remove a moved file or directory.
    RemovePath(Vec<u8>),
    /// Forget a package receipt.
    ForgetPackage(Vec<u8>),
    /// Unload a launchd job.
    UnloadJob(Vec<u8>),
    /// Move a path to the trash.
    Trash(Vec<u8>),
}

pub enum UndoView {
    RemoveLink(Seq<u8>),
    RemovePath(Seq<u8>),
    ForgetPackage(Seq<u8>),
    UnloadJob(Seq<u8>),
    Trash(Seq<u8>),
}

pub open spec fn undo_view(u: UndoAction) -> UndoView {
    match u {
        UndoAction::RemoveLink(p) => UndoView::RemoveLink(p@),
        UndoAction::RemovePath(p) => UndoView::RemovePath(p@),
        UndoAction::ForgetPackage(p) => UndoView::ForgetPackage(p@),
        UndoAction::UnloadJob(p) => UndoView::UnloadJob(p@),
        UndoAction::Trash(p) => UndoView::Trash(p@),
    }
}

/// How a record is undone: links are removed, moved bundles deleted,
/// receipts forgotten, jobs unloaded, zapped paths trashed.
pub open spec fn undo_spec(a: ArtifactView) -> UndoView {
    match a {
        ArtifactView::AppBundle(p) => UndoView::RemovePath(p),
        ArtifactView::MovedResource(p) => UndoView::RemovePath(p),
        ArtifactView::CaskroomLink(l, _) => UndoView::RemoveLink(l),
        ArtifactView::BinaryLink(l, _) => UndoView::RemoveLink(l),
        ArtifactView::PkgInstaller(id) => UndoView::ForgetPackage(id),
        ArtifactView::Launchd(label) => UndoView::UnloadJob(label),
        ArtifactView::ZapTrash(p) => UndoView::Trash(p),
    }
}

/// The steps of a soft uninstall: the records undone in reverse order of
/// installation. The version directory itself is kept.
pub fn soft_uninstall_plan(records: &Vec<InstalledArtifact>) -> (r: Vec<UndoAction>)
    ensures
        r@.len() == records@.len(),
        forall|i: int|
            0 <= i < r@.len() ==> undo_view(#[trigger] r@[i]) == undo_spec(
                artifact_view(records@[records@.len() - 1 - i]),
            ),
{
    let mut out: Vec<UndoAction> = Vec::new();
    let n = records.len();
    let mut k: usize = 0;
    while k < n
        invariant
            n == records@.len(),
            k <= n,
            out@.len() == k,
            forall|i: int|
                0 <= i < k ==> undo_view(#[trigger] out@[i]) == undo_spec(
                    artifact_view(records@[n - 1 - i]),
                ),
        decreases n - k,
    {
        let u = match &records[n - 1 - k] {
            InstalledArtifact::AppBundle { path } => UndoAction::RemovePath(copy_bytes(path.as_slice())),
            InstalledArtifact::MovedResource { path } => UndoAction::RemovePath(
                copy_bytes(path.as_slice()),
            ),
            InstalledArtifact::CaskroomLink { link_path, .. } => UndoAction::RemoveLink(
                copy_bytes(link_path.as_slice()),
            ),
            InstalledArtifact::BinaryLink { link_path, .. } => UndoAction::RemoveLink(
                copy_bytes(link_path.as_slice()),
            ),
            InstalledArtifact::PkgInstaller { id } => UndoAction::ForgetPackage(copy_bytes(id.as_slice())),
            InstalledArtifact::Launchd { label } => UndoAction::UnloadJob(copy_bytes(label.as_slice())),
            InstalledArtifact::ZapTrash { path } => UndoAction::Trash(copy_bytes(path.as_slice())),
        };
        out.push(u);
        k = k + 1;
    }
    out
}

} // verus!

verus! {

// ----- Placing one artifact -----

/// Where the placement of one artifact stands.
#[derive(Debug, Clone, Copy, PartialEq, Eq, Structural)]
pub enum PlaceStage {
    Start,
    CheckingSource,
    Clearing,
    Moving,
    Copying,
    CheckingDestination,
    Linking,
    Done,
    Skipped,
    Failed,
}

/// What the driver does next for one artifact.
#[derive(Debug, Clone, Copy, PartialEq, Eq, Structural)]
pub enum PlaceAction {
    /// Report whether the source exists in the stage.
    CheckSource,
    /// Remove whatever is at the destination; the outcome does not matter.
    RemoveDestination,
    /// Rename the source to the destination.
    Move,
    /// Copy the source recursively to the destination.
    Copy,
    /// Report whether the destination now exists.
    CheckDestination,
    /// Replace whatever is at the link path with a link to the destination,
    /// and keep the placement's records.
    LinkAndRecord,
    /// The name is not in the stage: leave it out, without error.
    Skip,
    /// Stop the installation with an error.
    Fail,
    /// Nothing is left to do.
    Finish,
}

/// One transition of placing an artifact, given whether the last action
/// succeeded: a missing source is skipped; the destination is cleared; a
/// failed rename falls back to a copy; the result must exist before it is
/// linked and recorded.
pub open spec fn place_spec(stage: PlaceStage, ok: bool) -> (PlaceStage, PlaceAction) {
    match stage {
        PlaceStage::Start => (PlaceStage::CheckingSource, PlaceAction::CheckSource),
        PlaceStage::CheckingSource => if ok {
            (PlaceStage::Clearing, PlaceAction::RemoveDestination)
        } else {
            (PlaceStage::Skipped, PlaceAction::Skip)
        },
        PlaceStage::Clearing => (PlaceStage::Moving, PlaceAction::Move),
        PlaceStage::Moving => if ok {
            (PlaceStage::CheckingDestination, PlaceAction::CheckDestination)
        } else {
            (PlaceStage::Copying, PlaceAction::Copy)
        },
        PlaceStage::Copying => (PlaceStage::CheckingDestination, PlaceAction::CheckDestination),
        PlaceStage::CheckingDestination => if ok {
            (PlaceStage::Linking, PlaceAction::LinkAndRecord)
        } else {
            (PlaceStage::Failed, PlaceAction::Fail)
        },
        PlaceStage::Linking => if ok {
            (PlaceStage::Done, PlaceAction::Finish)
        } else {
            (PlaceStage::Failed, PlaceAction::Fail)
        },
        PlaceStage::Done => (PlaceStage::Done, PlaceAction::Finish),
        PlaceStage::Skipped => (PlaceStage::Skipped, PlaceAction::Finish),
        PlaceStage::Failed => (PlaceStage::Failed, PlaceAction::Finish),
    }
}

/// The next stage and action of placing one artifact.
pub fn place_step(stage: PlaceStage, ok: bool) -> (r: (PlaceStage, PlaceAction))
    ensures
        r == place_spec(stage, ok),
{
    match stage {
        PlaceStage::Start => (PlaceStage::CheckingSource, PlaceAction::CheckSource),
        PlaceStage::CheckingSource => if ok {
            (PlaceStage::Clearing, PlaceAction::RemoveDestination)
        } else {
            (PlaceStage::Skipped, PlaceAction::Skip)
        },
        PlaceStage::Clearing => (PlaceStage::Moving, PlaceAction::Move),
        PlaceStage::Moving => if ok {
            (PlaceStage::CheckingDestination, PlaceAction::CheckDestination)
        } else {
            (PlaceStage::Copying, PlaceAction::Copy)
        },
        PlaceStage::Copying => (PlaceStage::CheckingDestination, PlaceAction::CheckDestination),
        PlaceStage::CheckingDestination => if ok {
            (PlaceStage::Linking, PlaceAction::LinkAndRecord)
        } else {
            (PlaceStage::Failed, PlaceAction::Fail)
        },
        PlaceStage::Linking => if ok {
            (PlaceStage::Done, PlaceAction::Finish)
        } else {
            (PlaceStage::Failed, PlaceAction::Fail)
        },
        PlaceStage::Done => (PlaceStage::Done, PlaceAction::Finish),
        PlaceStage::Skipped => (PlaceStage::Skipped, PlaceAction::Finish),
        PlaceStage::Failed => (PlaceStage::Failed, PlaceAction::Finish),
    }
}

} // verus!
