//! Archive entry handling: the suffix that picks the decoder, entry paths
//! split into components, leading components stripped, traversal refused,
//! and the single top-level directory that an archive may share.
use crate::error::SpsError;
use vstd::prelude::*;
use vstd::string::StringSliceAdditionalSpecFns;
use vstd::utf8::{decode_utf8, valid_utf8};

verus! {

/// Container formats that extraction understands.
#[derive(Debug, Clone, Copy, PartialEq, Eq)]
pub enum ArchiveKind {
    Zip,
    Tar,
    TarGz,
    TarBz2,
    TarXz,
}

pub open spec fn kind_for_suffix(t: Seq<u8>) -> Option<ArchiveKind> {
    if t == seq![0x7au8, 0x69, 0x70] {
        Some(ArchiveKind::Zip)
    } else if t == seq![0x67u8, 0x7a] || t == seq![0x74u8, 0x67, 0x7a] {
        Some(ArchiveKind::TarGz)
    } else if t == seq![0x62u8, 0x7a, 0x32] || t == seq![0x74u8, 0x62, 0x7a] || t == seq![0x74u8, 0x62, 0x7a, 0x32] {
        Some(ArchiveKind::TarBz2)
    } else if t == seq![0x78u8, 0x7a] || t == seq![0x74u8, 0x78, 0x7a] {
        Some(ArchiveKind::TarXz)
    } else if t == seq![0x74u8, 0x61, 0x72] {
        Some(ArchiveKind::Tar)
    } else {
        None
    }
}

/// Whether `b` holds exactly the bytes of `w`.
pub fn bytes_equal(b: &[u8], w: &[u8]) -> (r: bool)
    ensures
        r == (b@ == w@),
{
    if b.len() != w.len() {
        return false;
    }
    let mut i: usize = 0;
    while i < b.len()
        invariant
            b@.len() == w@.len(),
            i <= b@.len(),
            forall|j: int| 0 <= j < i ==> b@[j] == w@[j],
        decreases b@.len() - i,
    {
        if b[i] != w[i] {
            return false;
        }
        i = i + 1;
    }
    assert(b@ =~= w@);
    true
}

/// The archive kind named by a file-name suffix (`zip`, `tar`, `gz`, `tgz`,
/// `bz2`, `tbz`, `tbz2`, `xz`, `txz`); any other suffix is refused.
pub fn archive_kind(archive_type: &str) -> (r: Result<ArchiveKind, SpsError>)
    ensures
        match r {
            Ok(k) => kind_for_suffix(archive_type.spec_bytes()) == Some(k),
            Err(e) => kind_for_suffix(archive_type.spec_bytes()) is None && (e matches SpsError::Generic(
                m,
            ) && m@ == "unsupported archive type: "@ + archive_type@),
        },
{
    let t = archive_type.as_bytes();
    let zip: [u8; 3] = [0x7a, 0x69, 0x70];
    let gz: [u8; 2] = [0x67, 0x7a];
    let tgz: [u8; 3] = [0x74, 0x67, 0x7a];
    let bz2: [u8; 3] = [0x62, 0x7a, 0x32];
    let tbz: [u8; 3] = [0x74, 0x62, 0x7a];
    let tbz2: [u8; 4] = [0x74, 0x62, 0x7a, 0x32];
    let xz: [u8; 2] = [0x78, 0x7a];
    let txz: [u8; 3] = [0x74, 0x78, 0x7a];
    let tar: [u8; 3] = [0x74, 0x61, 0x72];
    assert(zip@ == seq![0x7au8, 0x69, 0x70]);
    assert(gz@ == seq![0x67u8, 0x7a]);
    assert(tgz@ == seq![0x74u8, 0x67, 0x7a]);
    assert(bz2@ == seq![0x62u8, 0x7a, 0x32]);
    assert(tbz@ == seq![0x74u8, 0x62, 0x7a]);
    assert(tbz2@ == seq![0x74u8, 0x62, 0x7a, 0x32]);
    assert(xz@ == seq![0x78u8, 0x7a]);
    assert(txz@ == seq![0x74u8, 0x78, 0x7a]);
    assert(tar@ == seq![0x74u8, 0x61, 0x72]);
    if bytes_equal(t, &zip) {
        Ok(ArchiveKind::Zip)
    } else if bytes_equal(t, &gz) || bytes_equal(t, &tgz) {
        Ok(ArchiveKind::TarGz)
    } else if bytes_equal(t, &bz2) || bytes_equal(t, &tbz) || bytes_equal(t, &tbz2) {
        Ok(ArchiveKind::TarBz2)
    } else if bytes_equal(t, &xz) || bytes_equal(t, &txz) {
        Ok(ArchiveKind::TarXz)
    } else if bytes_equal(t, &tar) {
        Ok(ArchiveKind::Tar)
    } else {
        Err(SpsError::Generic(String::from_str("unsupported archive type: ").concat(archive_type)))
    }
}

} // verus!

verus! {

// ----- Path components -----

/// One component of a `/`-separated path.
#[derive(Debug, Clone, PartialEq, Eq)]
pub enum PathComponent {
    RootDir,
    CurDir,
    ParentDir,
    Normal(Vec<u8>),
}

/// A component as plain values.
pub enum CompView {
    Root,
    Cur,
    Parent,
    Normal(Seq<u8>),
}

pub open spec fn comp_view(c: PathComponent) -> CompView {
    match c {
        PathComponent::RootDir => CompView::Root,
        PathComponent::CurDir => CompView::Cur,
        PathComponent::ParentDir => CompView::Parent,
        PathComponent::Normal(n) => CompView::Normal(n@),
    }
}

pub open spec fn comps_view(cs: Seq<PathComponent>) -> Seq<CompView> {
    cs.map_values(|c: PathComponent| comp_view(c))
}

pub open spec fn dot() -> Seq<u8> {
    seq![0x2eu8]
}

pub open spec fn dot_dot() -> Seq<u8> {
    seq![0x2eu8, 0x2e]
}

/// The pieces of `p` between separators, empty ones included.
pub open spec fn split_on(p: Seq<u8>, sep: u8) -> Seq<Seq<u8>>
    decreases p.len(),
{
    if p.len() == 0 {
        seq![Seq::empty()]
    } else {
        let s = split_on(p.drop_last(), sep);
        if p.last() == sep {
            s.push(Seq::empty())
        } else {
            s.update(s.len() - 1, s.last().push(p.last()))
        }
    }
}

/// Components of the pieces: empty pieces and `.` vanish, `..` is the parent.
pub open spec fn piece_comps(ps: Seq<Seq<u8>>) -> Seq<CompView>
    decreases ps.len(),
{
    if ps.len() == 0 {
        Seq::empty()
    } else {
        let prev = piece_comps(ps.drop_last());
        let x = ps.last();
        if x.len() == 0 || x == dot() {
            prev
        } else if x == dot_dot() {
            prev.push(CompView::Parent)
        } else {
            prev.push(CompView::Normal(x))
        }
    }
}

/// The components of a Unix path: a leading slash is the root, a leading
/// `.` piece of a relative path is the current directory, and the rest are
/// the pieces' components.
pub open spec fn components_spec(p: Seq<u8>) -> Seq<CompView> {
    let ps = split_on(p, 0x2f);
    if p.len() > 0 && p[0] == 0x2f {
        seq![CompView::Root] + piece_comps(ps)
    } else if ps[0] == dot() {
        seq![CompView::Cur] + piece_comps(ps)
    } else {
        piece_comps(ps)
    }
}

pub proof fn lemma_split_nonempty(p: Seq<u8>, sep: u8)
    ensures
        split_on(p, sep).len() >= 1,
    decreases p.len(),
{
    if p.len() > 0 {
        lemma_split_nonempty(p.drop_last(), sep);
    }
}

/// The pieces of `p` between separators.
pub fn split_pieces(p: &[u8], sep: u8) -> (r: Vec<Vec<u8>>)
    ensures
        r@.map_values(|x: Vec<u8>| x@) == split_on(p@, sep),
{
    let mut done: Vec<Vec<u8>> = Vec::new();
    let mut cur: Vec<u8> = Vec::new();
    let mut i: usize = 0;
    assert(p@.subrange(0, 0) =~= Seq::<u8>::empty());
    while i < p.len()
        invariant
            i <= p@.len(),
            done@.map_values(|x: Vec<u8>| x@).push(cur@) == split_on(p@.subrange(0, i as int), sep),
        decreases p@.len() - i,
    {
        let ghost before = p@.subrange(0, i as int);
        let ghost after = p@.subrange(0, i + 1);
        assert(after.drop_last() =~= before);
        let ghost dv = done@.map_values(|x: Vec<u8>| x@);
        if p[i] == sep {
            let finished = cur;
            cur = Vec::new();
            done.push(finished);
            assert(done@.map_values(|x: Vec<u8>| x@) =~= dv.push(finished@));
            assert(done@.map_values(|x: Vec<u8>| x@).push(cur@) =~= dv.push(finished@).push(
                Seq::empty(),
            ));
        } else {
            let ghost c0 = cur@;
            cur.push(p[i]);
            assert(dv.push(c0).update(dv.len() as int, c0.push(p@[i as int])) =~= dv.push(cur@));
        }
        i = i + 1;
    }
    assert(p@.subrange(0, i as int) =~= p@);
    let ghost dv = done@.map_values(|x: Vec<u8>| x@);
    done.push(cur);
    assert(done@.map_values(|x: Vec<u8>| x@) =~= dv.push(cur@));
    done
}

fn is_dot(x: &[u8]) -> (r: bool)
    ensures
        r == (x@ == dot()),
{
    let d: [u8; 1] = [0x2e];
    assert(d@ == dot());
    bytes_equal(x, &d)
}

fn is_dot_dot(x: &[u8]) -> (r: bool)
    ensures
        r == (x@ == dot_dot()),
{
    let d: [u8; 2] = [0x2e, 0x2e];
    assert(d@ == dot_dot());
    bytes_equal(x, &d)
}

/// The components of a `/`-separated path, as Unix paths define them.
pub fn path_components(p: &[u8]) -> (r: Vec<PathComponent>)
    ensures
        comps_view(r@) == components_spec(p@),
{
    let pieces = split_pieces(p, 0x2f);
    let ghost ps = split_on(p@, 0x2f);
    proof {
        lemma_split_nonempty(p@, 0x2f);
    }
    let mut out: Vec<PathComponent> = Vec::new();
    let ghost lead: Seq<CompView>;
    if p.len() > 0 && p[0] == 0x2f {
        out.push(PathComponent::RootDir);
        proof {
            lead = seq![CompView::Root];
        }
    } else if is_dot(pieces[0].as_slice()) {
        out.push(PathComponent::CurDir);
        proof {
            lead = seq![CompView::Cur];
        }
    } else {
        proof {
            lead = Seq::empty();
        }
    }
    assert(comps_view(out@) =~= lead);
    let mut k: usize = 0;
    assert(ps.subrange(0, 0) =~= Seq::<Seq<u8>>::empty());
    while k < pieces.len()
        invariant
            pieces@.map_values(|x: Vec<u8>| x@) == ps,
            k <= pieces@.len(),
            comps_view(out@) == lead + piece_comps(ps.subrange(0, k as int)),
        decreases pieces@.len() - k,
    {
        let x = pieces[k].as_slice();
        let ghost before = comps_view(out@);
        assert(ps.subrange(0, k + 1).drop_last() =~= ps.subrange(0, k as int));
        assert(ps.subrange(0, k + 1).last() == x@);
        if x.len() == 0 || is_dot(x) {
        } else if is_dot_dot(x) {
            out.push(PathComponent::ParentDir);
            assert(comps_view(out@) =~= before.push(CompView::Parent));
        } else {
            let name = crate::placeholder::copy_bytes(x);
            out.push(PathComponent::Normal(name));
            assert(comps_view(out@) =~= before.push(CompView::Normal(x@)));
        }
        k = k + 1;
    }
    assert(ps.subrange(0, k as int) =~= ps);
    out
}

} // verus!

verus! {

// ----- Entry resolution -----

/// The components left after dropping the first `n`.
pub open spec fn strip_spec(cs: Seq<CompView>, n: int) -> Seq<CompView> {
    if n >= cs.len() {
        Seq::empty()
    } else {
        cs.subrange(n, cs.len() as int)
    }
}

/// Only plain names and `.` may remain in an entry path.
pub open spec fn admissible(c: CompView) -> bool {
    c is Normal || c is Cur
}

/// The names of the plain components, in order.
pub open spec fn normal_names(cs: Seq<CompView>) -> Seq<Seq<u8>>
    decreases cs.len(),
{
    if cs.len() == 0 {
        Seq::empty()
    } else {
        let prev = normal_names(cs.drop_last());
        match cs.last() {
            CompView::Normal(n) => prev.push(n),
            _ => prev,
        }
    }
}

/// Where an entry lands under the stage, as the names to descend through:
/// `Some(None)` when stripping leaves nothing, `None` when a remaining
/// component is a parent, a root or a prefix.
pub open spec fn resolve_spec(p: Seq<u8>, n: int) -> Option<Option<Seq<Seq<u8>>>> {
    let s = strip_spec(components_spec(p), n);
    if s.len() == 0 {
        Some(None)
    } else if exists|i: int| 0 <= i < s.len() && !admissible(#[trigger] s[i]) {
        None
    } else {
        Some(Some(normal_names(s)))
    }
}

/// The message of a refused entry: what was refused, then the entry's path.
pub open spec fn names_entry(m: Seq<char>, path: Seq<char>) -> bool {
    m == "unsafe '..' component in "@ + path || m == "disallowed component in "@ + path
}

pub open spec fn names_view(v: Seq<Vec<u8>>) -> Seq<Seq<u8>> {
    v.map_values(|x: Vec<u8>| x@)
}

/// Relies on `String::from_utf8_lossy`, to name an entry in a message:
/// valid UTF-8 comes back as the characters it encodes.
#[verifier::external_body]
fn lossy_string(b: &[u8]) -> (r: String)
    ensures
        valid_utf8(b@) ==> r@ == decode_utf8(b@),
{
    String::from_utf8_lossy(b).into_owned()
}

/// Resolves one archive entry path: drops `strip_components` leading
/// components, then returns the names under the stage where the entry goes,
/// `None` when nothing is left, or a `Generic` error naming the entry when a
/// parent, root or prefix component remains.
pub fn resolve_entry_path(path: &[u8], strip_components: usize) -> (r: Result<
    Option<Vec<Vec<u8>>>,
    SpsError,
>)
    ensures
        match r {
            Ok(Some(v)) => resolve_spec(path@, strip_components as int) == Some(
                Some(names_view(v@)),
            ),
            Ok(None) => resolve_spec(path@, strip_components as int) == Some(
                None::<Seq<Seq<u8>>>,
            ),
            Err(e) => resolve_spec(path@, strip_components as int) is None && (e matches SpsError::Generic(
                m,
            ) && (valid_utf8(path@) ==> names_entry(m@, decode_utf8(path@)))),
        },
{
    let comps = path_components(path);
    let ghost cs = components_spec(path@);
    if strip_components >= comps.len() {
        return Ok(None);
    }
    let ghost s = strip_spec(cs, strip_components as int);
    let mut names: Vec<Vec<u8>> = Vec::new();
    let mut k: usize = strip_components;
    assert(s.subrange(0, 0) =~= Seq::<CompView>::empty());
    while k < comps.len()
        invariant
            comps_view(comps@) == cs,
            cs == components_spec(path@),
            s == strip_spec(cs, strip_components as int),
            strip_components <= k <= comps@.len(),
            s == cs.subrange(strip_components as int, cs.len() as int),
            forall|i: int| 0 <= i < k - strip_components ==> admissible(#[trigger] s[i]),
            names_view(names@) == normal_names(s.subrange(0, k - strip_components)),
        decreases comps@.len() - k,
    {
        let ghost j = k - strip_components;
        assert(s.subrange(0, j + 1).drop_last() =~= s.subrange(0, j));
        assert(s[j] == comp_view(comps@[k as int]));
        match &comps[k] {
            PathComponent::Normal(name) => {
                let ghost before = names_view(names@);
                let copy = crate::placeholder::copy_bytes(name.as_slice());
                names.push(copy);
                assert(names_view(names@) =~= before.push(name@));
            },
            PathComponent::CurDir => {},
            PathComponent::ParentDir => {
                assert(!admissible(s[j]));
                assert(s == strip_spec(components_spec(path@), strip_components as int));
                assert(0 <= j < s.len());
                assert(exists|i: int| 0 <= i < s.len() && !admissible(#[trigger] s[i]));
                let msg = String::from_str("unsafe '..' component in ").concat(
                    lossy_string(path).as_str(),
                );
                return Err(SpsError::Generic(msg));
            },
            PathComponent::RootDir => {
                assert(!admissible(s[j]));
                assert(s == strip_spec(components_spec(path@), strip_components as int));
                assert(0 <= j < s.len());
                assert(exists|i: int| 0 <= i < s.len() && !admissible(#[trigger] s[i]));
                let msg = String::from_str("disallowed component in ").concat(
                    lossy_string(path).as_str(),
                );
                return Err(SpsError::Generic(msg));
            },
        }
        k = k + 1;
    }
    assert(s.subrange(0, k - strip_components) =~= s);
    Ok(Some(names))
}

// ----- Names under the stage -----

/// A name that stays inside its directory: not empty, no slash, not `.` or `..`.
pub open spec fn normal_name(x: Seq<u8>) -> bool {
    x.len() > 0 && x != dot() && x != dot_dot() && forall|i: int| 0 <= i < x.len() ==> x[i] != 0x2f
}

pub open spec fn no_slash(x: Seq<u8>) -> bool {
    forall|i: int| 0 <= i < x.len() ==> x[i] != 0x2f
}

proof fn lemma_pieces_have_no_slash(p: Seq<u8>)
    ensures
        forall|k: int| 0 <= k < split_on(p, 0x2f).len() ==> no_slash(#[trigger] split_on(p, 0x2f)[k]),
    decreases p.len(),
{
    if p.len() > 0 {
        lemma_pieces_have_no_slash(p.drop_last());
        lemma_split_nonempty(p.drop_last(), 0x2f);
        let s = split_on(p.drop_last(), 0x2f);
        if p.last() != 0x2f {
            assert forall|k: int| 0 <= k < split_on(p, 0x2f).len() implies no_slash(
                #[trigger] split_on(p, 0x2f)[k],
            ) by {
                if k == s.len() - 1 {
                    let x = s.last().push(p.last());
                    assert(no_slash(s[k]));
                    assert forall|i: int| 0 <= i < x.len() implies x[i] != 0x2f by {
                        if i < x.len() - 1 {
                            assert(x[i] == s[k][i]);
                        }
                    }
                }
            }
        }
    }
}

pub open spec fn names_ok(cs: Seq<CompView>) -> bool {
    forall|i: int| 0 <= i < cs.len() ==> (#[trigger] cs[i] matches CompView::Normal(x) ==> normal_name(x))
}

proof fn lemma_piece_comps_ok(ps: Seq<Seq<u8>>)
    requires
        forall|k: int| 0 <= k < ps.len() ==> no_slash(#[trigger] ps[k]),
    ensures
        names_ok(piece_comps(ps)),
    decreases ps.len(),
{
    if ps.len() > 0 {
        assert forall|k: int| 0 <= k < ps.drop_last().len() implies no_slash(
            #[trigger] ps.drop_last()[k],
        ) by {
            assert(ps.drop_last()[k] == ps[k]);
        }
        lemma_piece_comps_ok(ps.drop_last());
        assert(no_slash(ps[ps.len() - 1]));
    }
}

proof fn lemma_components_ok(p: Seq<u8>)
    ensures
        names_ok(components_spec(p)),
{
    lemma_pieces_have_no_slash(p);
    lemma_piece_comps_ok(split_on(p, 0x2f));
    let pc = piece_comps(split_on(p, 0x2f));
    let c = components_spec(p);
    assert forall|i: int| 0 <= i < c.len() implies (#[trigger] c[i] matches CompView::Normal(
        x,
    ) ==> normal_name(x)) by {
        if c.len() > pc.len() && i >= 1 {
            assert(c[i] == pc[i - 1]);
        }
    }
}

proof fn lemma_normal_names_ok(cs: Seq<CompView>)
    requires
        names_ok(cs),
    ensures
        forall|k: int| 0 <= k < normal_names(cs).len() ==> normal_name(#[trigger] normal_names(cs)[k]),
    decreases cs.len(),
{
    if cs.len() > 0 {
        assert(names_ok(cs.drop_last())) by {
            assert forall|i: int| 0 <= i < cs.drop_last().len() implies (
            #[trigger] cs.drop_last()[i] matches CompView::Normal(x) ==> normal_name(x)) by {
                assert(cs.drop_last()[i] == cs[i]);
            }
        }
        lemma_normal_names_ok(cs.drop_last());
        let prev = normal_names(cs.drop_last());
        let last = cs[cs.len() - 1];
        assert(last matches CompView::Normal(x) ==> normal_name(x));
        assert forall|k: int| 0 <= k < normal_names(cs).len() implies normal_name(
            #[trigger] normal_names(cs)[k],
        ) by {
            if k < prev.len() {
                assert(normal_names(cs)[k] == prev[k]);
            }
        }
    }
}

/// `stage` followed by `/name` for each name.
pub open spec fn join_spec(stage: Seq<u8>, names: Seq<Seq<u8>>) -> Seq<u8>
    decreases names.len(),
{
    if names.len() == 0 {
        stage
    } else {
        join_spec(stage, names.drop_last()).push(0x2f) + names.last()
    }
}

/// The path of an entry under the stage: the stage, then `/name` for each name.
pub fn join_under(stage: &[u8], names: &Vec<Vec<u8>>) -> (r: Vec<u8>)
    ensures
        r@ == join_spec(stage@, names_view(names@)),
{
    let mut out = crate::placeholder::copy_bytes(stage);
    let mut k: usize = 0;
    assert(names_view(names@).subrange(0, 0) =~= Seq::<Seq<u8>>::empty());
    while k < names.len()
        invariant
            k <= names@.len(),
            out@ == join_spec(stage@, names_view(names@).subrange(0, k as int)),
        decreases names@.len() - k,
    {
        let ghost o0 = out@;
        let name = names[k].as_slice();
        out.push(0x2f);
        let mut i: usize = 0;
        while i < name.len()
            invariant
                i <= name@.len(),
                out@ == o0.push(0x2f) + name@.subrange(0, i as int),
            decreases name@.len() - i,
        {
            out.push(name[i]);
            i = i + 1;
            assert(out@ =~= o0.push(0x2f) + name@.subrange(0, i as int));
        }
        assert(name@.subrange(0, i as int) =~= name@);
        let ghost nv = names_view(names@);
        assert(nv.subrange(0, k + 1).drop_last() =~= nv.subrange(0, k as int));
        k = k + 1;
    }
    assert(names_view(names@).subrange(0, k as int) =~= names_view(names@));
    out
}

proof fn lemma_join_extends_stage(stage: Seq<u8>, names: Seq<Seq<u8>>)
    ensures
        join_spec(stage, names).len() >= stage.len(),
        join_spec(stage, names).subrange(0, stage.len() as int) == stage,
        names.len() > 0 ==> join_spec(stage, names)[stage.len() as int] == 0x2f,
    decreases names.len(),
{
    if names.len() > 0 {
        lemma_join_extends_stage(stage, names.drop_last());
        let j = join_spec(stage, names.drop_last());
        let full = j.push(0x2f) + names.last();
        assert(full.subrange(0, stage.len() as int) =~= j.subrange(0, stage.len() as int));
        if names.len() > 1 {
            assert(full[stage.len() as int] == j[stage.len() as int]);
        }
    }
}

/// Every entry that resolves lands under the stage: its path is the stage
/// followed by `/name` pieces, each a plain name that is neither empty, `.`,
/// `..` nor holds a slash.
pub proof fn lemma_resolved_entry_is_under_stage(p: Seq<u8>, n: int, stage: Seq<u8>)
    requires
        n >= 0,
        resolve_spec(p, n) matches Some(Some(_)),
    ensures
        ({
            let names = resolve_spec(p, n)->Some_0->Some_0;
            &&& forall|k: int| 0 <= k < names.len() ==> normal_name(#[trigger] names[k])
            &&& join_spec(stage, names).subrange(0, stage.len() as int) == stage
            &&& names.len() > 0 ==> join_spec(stage, names)[stage.len() as int] == 0x2f
        }),
{
    let cs = components_spec(p);
    lemma_components_ok(p);
    let s = strip_spec(cs, n);
    assert(names_ok(s)) by {
        assert forall|i: int| 0 <= i < s.len() implies (#[trigger] s[i] matches CompView::Normal(
            x,
        ) ==> normal_name(x)) by {
            assert(s[i] == cs[i + n]);
        }
    }
    lemma_normal_names_ok(s);
    lemma_join_extends_stage(stage, normal_names(s));
}

/// Stripping at least as many components as an entry has leaves nothing to
/// extract, and no error.
pub proof fn lemma_strip_beyond_depth(p: Seq<u8>, n: int)
    requires
        n >= components_spec(p).len(),
    ensures
        resolve_spec(p, n) == Some(None::<Seq<Seq<u8>>>),
{
}

} // verus!

verus! {

// ----- Root inference -----

/// What the first components of the entries seen so far have in common.
pub enum RootScan {
    Empty,
    One(Seq<u8>),
    Many,
}

/// Entries without components are ignored; a first component that is not a
/// plain name, or two different names, rule out a single root.
pub open spec fn scan_roots(ps: Seq<Seq<u8>>) -> RootScan
    decreases ps.len(),
{
    if ps.len() == 0 {
        RootScan::Empty
    } else {
        let prev = scan_roots(ps.drop_last());
        let c = components_spec(ps.last());
        if c.len() == 0 {
            prev
        } else {
            match c[0] {
                CompView::Normal(n) => match prev {
                    RootScan::Empty => RootScan::One(n),
                    RootScan::One(m) => if m == n {
                        RootScan::One(m)
                    } else {
                        RootScan::Many
                    },
                    RootScan::Many => RootScan::Many,
                },
                _ => RootScan::Many,
            }
        }
    }
}

/// The single top-level directory shared by every non-empty entry.
pub open spec fn infer_root_spec(ps: Seq<Seq<u8>>) -> Option<Seq<u8>> {
    match scan_roots(ps) {
        RootScan::One(n) => Some(n),
        _ => None,
    }
}

/// The top-level name that every non-empty entry path starts with, when
/// there is exactly one such name and it is a plain name; `None` for
/// several roots, no entries, or a root, `.` or `..` in first place.
pub fn infer_root_from_entries(entry_paths: &Vec<Vec<u8>>) -> (r: Option<Vec<u8>>)
    ensures
        match r {
            Some(v) => infer_root_spec(names_view(entry_paths@)) == Some(v@),
            None => infer_root_spec(names_view(entry_paths@)) is None,
        },
{
    let ghost ps = names_view(entry_paths@);
    let mut root: Option<Vec<u8>> = None;
    let mut many = false;
    let mut k: usize = 0;
    assert(ps.subrange(0, 0) =~= Seq::<Seq<u8>>::empty());
    while k < entry_paths.len()
        invariant
            ps == names_view(entry_paths@),
            k <= entry_paths@.len(),
            ({
                let st = scan_roots(ps.subrange(0, k as int));
                &&& many <==> st is Many
                &&& !many ==> (match root {
                    Some(v) => st == RootScan::One(v@),
                    None => st is Empty,
                })
            }),
        decreases entry_paths@.len() - k,
    {
        let comps = path_components(entry_paths[k].as_slice());
        assert(ps.subrange(0, k + 1).drop_last() =~= ps.subrange(0, k as int));
        assert(ps.subrange(0, k + 1).last() == entry_paths@[k as int]@);
        if comps.len() > 0 && !many {
            assert(comp_view(comps@[0]) == components_spec(entry_paths@[k as int]@)[0]);
            match &comps[0] {
                PathComponent::Normal(name) => {
                    match &root {
                        None => {
                            root = Some(crate::placeholder::copy_bytes(name.as_slice()));
                        },
                        Some(m) => {
                            if !bytes_equal(m.as_slice(), name.as_slice()) {
                                many = true;
                            }
                        },
                    }
                },
                _ => {
                    many = true;
                },
            }
        }
        k = k + 1;
    }
    assert(ps.subrange(0, k as int) =~= ps);
    if many {
        None
    } else {
        root
    }
}

} // verus!

verus! {

// ----- Writing one entry -----

/// What an archive entry holds.
#[derive(Debug, Clone, Copy, PartialEq, Eq)]
pub enum EntryKind {
    Directory,
    Symlink,
    File,
}

/// How an entry is written under the stage.
#[derive(Debug, Clone, Copy, PartialEq, Eq)]
pub enum EntryAction {
    /// Create the directory and any missing parents.
    CreateDir,
    /// Unlink whatever is at the target, then create the link.
    ReplaceWithSymlink,
    /// Write the entry's bytes to a new file.
    WriteFile,
    /// Leave the existing file in place: the first writer wins.
    Keep,
}

/// The action for an entry, and the Unix mode to apply afterwards.
#[derive(Debug, Clone, Copy, PartialEq, Eq)]
pub struct EntryPlan {
    pub action: EntryAction,
    pub mode: Option<u32>,
}

/// Directories are created, symlinks replace what is there, files are
/// written unless something already exists at the target; the archive's
/// mode bits are applied to files that are written, and to nothing else.
pub fn plan_entry(kind: EntryKind, unix_mode: Option<u32>, target_exists: bool) -> (r: EntryPlan)
    ensures
        r.action == match kind {
            EntryKind::Directory => EntryAction::CreateDir,
            EntryKind::Symlink => EntryAction::ReplaceWithSymlink,
            EntryKind::File => if target_exists {
                EntryAction::Keep
            } else {
                EntryAction::WriteFile
            },
        },
        r.mode == if r.action == EntryAction::WriteFile {
            unix_mode
        } else {
            None
        },
{
    match kind {
        EntryKind::Directory => EntryPlan { action: EntryAction::CreateDir, mode: None },
        EntryKind::Symlink => EntryPlan { action: EntryAction::ReplaceWithSymlink, mode: None },
        EntryKind::File => if target_exists {
            EntryPlan { action: EntryAction::Keep, mode: None }
        } else {
            EntryPlan { action: EntryAction::WriteFile, mode: unix_mode }
        },
    }
}

} // verus!

verus! {

// ----- Links made by earlier entries -----

/// `q` lies strictly below `p`: `p` is a proper prefix of `q`.
pub open spec fn strictly_under(q: Seq<Seq<u8>>, p: Seq<Seq<u8>>) -> bool {
    p.len() < q.len() && q.subrange(0, p.len() as int) == p
}

pub open spec fn links_view(links: Seq<Vec<Vec<u8>>>) -> Seq<Seq<Seq<u8>>> {
    links.map_values(|l: Vec<Vec<u8>>| names_view(l@))
}

/// The way down to `names` goes through one of the links.
pub open spec fn passes_through_link(links: Seq<Seq<Seq<u8>>>, names: Seq<Seq<u8>>) -> bool {
    exists|i: int| 0 <= i < links.len() && strictly_under(names, #[trigger] links[i])
}

fn is_strictly_under(q: &Vec<Vec<u8>>, p: &Vec<Vec<u8>>) -> (r: bool)
    ensures
        r == strictly_under(names_view(q@), names_view(p@)),
{
    if p.len() >= q.len() {
        return false;
    }
    let mut i: usize = 0;
    while i < p.len()
        invariant
            p@.len() < q@.len(),
            i <= p@.len(),
            forall|j: int| 0 <= j < i ==> q@[j]@ == p@[j]@,
        decreases p@.len() - i,
    {
        if !bytes_equal(q[i].as_slice(), p[i].as_slice()) {
            assert(names_view(q@).subrange(0, p@.len() as int)[i as int] != names_view(p@)[i as int]);
            return false;
        }
        i = i + 1;
    }
    assert(names_view(q@).subrange(0, p@.len() as int) =~= names_view(p@));
    true
}

/// Refuses an entry that would be written through a symbolic link that an
/// earlier entry of the same archive created: `links` holds the resolved
/// names of those links. The error names the entry.
pub fn check_entry_links(links: &Vec<Vec<Vec<u8>>>, names: &Vec<Vec<u8>>, path: &[u8]) -> (r: Result<
    (),
    SpsError,
>)
    ensures
        r is Ok <==> !passes_through_link(links_view(links@), names_view(names@)),
        r matches Err(e) ==> (e matches SpsError::Generic(m) && (valid_utf8(path@) ==> m@
            == "entry passes through a link: "@ + decode_utf8(path@))),
{
    let mut i: usize = 0;
    while i < links.len()
        invariant
            i <= links@.len(),
            forall|j: int|
                0 <= j < i ==> !strictly_under(names_view(names@), #[trigger] links_view(links@)[j]),
        decreases links@.len() - i,
    {
        if is_strictly_under(names, &links[i]) {
            assert(links_view(links@)[i as int] == names_view(links@[i as int]@));
            let msg = String::from_str("entry passes through a link: ").concat(lossy_string(path).as_str());
            return Err(SpsError::Generic(msg));
        }
        i = i + 1;
    }
    Ok(())
}

/// An entry that resolves and passes the link check is written lexically
/// under the stage, and no link made by an earlier entry lies above it.
pub proof fn lemma_checked_entry_is_contained(
    p: Seq<u8>,
    n: int,
    stage: Seq<u8>,
    links: Seq<Seq<Seq<u8>>>,
)
    requires
        n >= 0,
        resolve_spec(p, n) matches Some(Some(names)) && !passes_through_link(links, names),
    ensures
        ({
            let names = resolve_spec(p, n)->Some_0->Some_0;
            &&& join_spec(stage, names).subrange(0, stage.len() as int) == stage
            &&& forall|i: int| 0 <= i < links.len() ==> !strictly_under(names, #[trigger] links[i])
        }),
{
    lemma_resolved_entry_is_under_stage(p, n, stage);
}

} // verus!
