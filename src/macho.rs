//! Mach-O relocation: find install-path placeholders in the path-carrying
//! load commands of thin and FAT binaries, and rewrite them in place.
use crate::error::SpsError;
use crate::placeholder::{find_and_replace_placeholders, pairs_view, replaced_path};
use object::macho::{MachHeader32, MachHeader64};
use object::read::macho::{FatArch, MachOFatFile32, MachOFatFile64, MachOFile};
use object::{Endianness, FileKind};
use vstd::prelude::*;
use vstd::slice::slice_subrange;
use vstd::utf8::valid_utf8;

verus! {

/// One string rewrite inside a Mach-O buffer.
#[derive(Debug, Clone)]
pub struct PatchInfo {
    /// Offset of the string in the whole file.
    pub absolute_offset: usize,
    /// Room reserved for the string, up to the end of its load command.
    pub allocated_len: usize,
    /// Bytes to write in place of the old string.
    pub new_path: Vec<u8>,
}

/// A rewrite that was not applied because the new path does not fit.
#[derive(Debug, Clone)]
pub struct SkippedPath {
    pub old_path: Vec<u8>,
    pub new_path: Vec<u8>,
}

/// A patch as a triple of plain values: offset, allocated length, new bytes.
pub type PatchView = (int, int, Seq<u8>);

pub open spec fn patch_view(p: PatchInfo) -> PatchView {
    (p.absolute_offset as int, p.allocated_len as int, p.new_path@)
}

pub open spec fn patches_view(ps: Seq<PatchInfo>) -> Seq<PatchView> {
    ps.map_values(|p: PatchInfo| patch_view(p))
}

/// The patch leaves room for a terminating NUL and lies inside a buffer of `len` bytes.
pub open spec fn patch_fits(p: PatchView, len: int) -> bool {
    p.2.len() + 1 <= p.1 && 0 <= p.0 && p.0 + p.1 <= len
}

/// `i` lies in the area that the patch rewrites.
pub open spec fn in_patch(p: PatchView, i: int) -> bool {
    p.0 <= i < p.0 + p.1
}

/// The buffer after one patch: the new bytes, then zeros up to the allocated
/// length; a patch that does not fit leaves the buffer as it is.
pub open spec fn write_patch(b: Seq<u8>, p: PatchView) -> Seq<u8> {
    if patch_fits(p, b.len() as int) {
        Seq::new(
            b.len(),
            |i: int|
                if p.0 <= i < p.0 + p.2.len() {
                    p.2[i - p.0]
                } else if p.0 + p.2.len() <= i < p.0 + p.1 {
                    0u8
                } else {
                    b[i]
                },
        )
    } else {
        b
    }
}

/// The buffer after the patches, applied in order.
pub open spec fn apply_patches_spec(b: Seq<u8>, ps: Seq<PatchView>) -> Seq<u8>
    decreases ps.len(),
{
    if ps.len() == 0 {
        b
    } else {
        write_patch(apply_patches_spec(b, ps.drop_last()), ps.last())
    }
}

/// Writes `new_path` at `abs_off`, then zeros up to `alloc_len`; out of
/// bounds or too long, the buffer is left unchanged.
pub fn patch_path_in_buffer(buf: &mut Vec<u8>, abs_off: usize, alloc_len: usize, new_path: &[u8])
    ensures
        final(buf)@ == write_patch(old(buf)@, (abs_off as int, alloc_len as int, new_path@)),
{
    let ghost p = (abs_off as int, alloc_len as int, new_path@);
    if new_path.len() >= alloc_len || alloc_len > buf.len() || abs_off > buf.len() - alloc_len {
        return;
    }
    let ghost b0 = buf@;
    let n = new_path.len();
    let mut i: usize = 0;
    while i < alloc_len
        invariant
            p == (abs_off as int, alloc_len as int, new_path@),
            n == new_path@.len(),
            n < alloc_len,
            abs_off + alloc_len <= b0.len(),
            abs_off <= usize::MAX - alloc_len,
            i <= alloc_len,
            buf@.len() == b0.len(),
            forall|j: int|
                0 <= j < buf@.len() ==> #[trigger] buf@[j] == if abs_off <= j < abs_off + i {
                    write_patch(b0, p)[j]
                } else {
                    b0[j]
                },
        decreases alloc_len - i,
    {
        if i < n {
            buf.set(abs_off + i, new_path[i]);
        } else {
            buf.set(abs_off + i, 0);
        }
        i = i + 1;
    }
    assert(buf@ =~= write_patch(b0, p));
}

/// Applies every patch in order.
pub fn apply_patches(buf: &mut Vec<u8>, patches: &Vec<PatchInfo>)
    ensures
        final(buf)@ == apply_patches_spec(old(buf)@, patches_view(patches@)),
{
    let ghost b0 = buf@;
    let mut k: usize = 0;
    while k < patches.len()
        invariant
            k <= patches@.len(),
            buf@ == apply_patches_spec(b0, patches_view(patches@.subrange(0, k as int))),
        decreases patches@.len() - k,
    {
        let p = &patches[k];
        patch_path_in_buffer(buf, p.absolute_offset, p.allocated_len, p.new_path.as_slice());
        proof {
            let s1 = patches_view(patches@.subrange(0, k + 1));
            assert(s1.drop_last() =~= patches_view(patches@.subrange(0, k as int)));
        }
        k = k + 1;
    }
    assert(patches@.subrange(0, k as int) =~= patches@);
}

/// Patching never changes the length of the buffer.
pub proof fn lemma_patch_keeps_length(b: Seq<u8>, ps: Seq<PatchView>)
    ensures
        apply_patches_spec(b, ps).len() == b.len(),
    decreases ps.len(),
{
    if ps.len() > 0 {
        lemma_patch_keeps_length(b, ps.drop_last());
    }
}

/// A byte outside every patch's area keeps its input value.
pub proof fn lemma_patch_keeps_other_bytes(b: Seq<u8>, ps: Seq<PatchView>, i: int)
    requires
        0 <= i < b.len(),
        forall|k: int| 0 <= k < ps.len() ==> !in_patch(#[trigger] ps[k], i),
    ensures
        apply_patches_spec(b, ps)[i] == b[i],
    decreases ps.len(),
{
    if ps.len() > 0 {
        lemma_patch_keeps_length(b, ps.drop_last());
        assert forall|k: int| 0 <= k < ps.drop_last().len() implies !in_patch(
            #[trigger] ps.drop_last()[k],
            i,
        ) by {
            assert(ps.drop_last()[k] == ps[k]);
        }
        lemma_patch_keeps_other_bytes(b, ps.drop_last(), i);
        assert(!in_patch(ps[ps.len() - 1], i));
    }
}

/// The areas of the two patches share no byte.
pub open spec fn disjoint(p: PatchView, q: PatchView) -> bool {
    p.0 + p.1 <= q.0 || q.0 + q.1 <= p.0
}

/// When no two patch areas overlap, each patch that fits holds its new bytes
/// followed by zeros up to its allocated length.
pub proof fn lemma_patched_string_is_nul_padded(b: Seq<u8>, ps: Seq<PatchView>, k: int, i: int)
    requires
        0 <= k < ps.len(),
        patch_fits(ps[k], b.len() as int),
        forall|a: int, c: int| 0 <= a < ps.len() && 0 <= c < ps.len() && a != c ==> disjoint(
            #[trigger] ps[a],
            #[trigger] ps[c],
        ),
        ps[k].0 <= i < ps[k].0 + ps[k].1,
    ensures
        i < ps[k].0 + ps[k].2.len() ==> apply_patches_spec(b, ps)[i] == ps[k].2[i - ps[k].0],
        ps[k].0 + ps[k].2.len() <= i ==> apply_patches_spec(b, ps)[i] == 0,
    decreases ps.len(),
{
    let last = ps.len() - 1;
    lemma_patch_keeps_length(b, ps.drop_last());
    if k == last {
    } else {
        assert forall|a: int, c: int|
            0 <= a < ps.drop_last().len() && 0 <= c < ps.drop_last().len() && a != c implies disjoint(
            #[trigger] ps.drop_last()[a],
            #[trigger] ps.drop_last()[c],
        ) by {
            assert(ps.drop_last()[a] == ps[a]);
            assert(ps.drop_last()[c] == ps[c]);
        }
        assert(ps.drop_last()[k] == ps[k]);
        lemma_patched_string_is_nul_padded(b, ps.drop_last(), k, i);
        assert(disjoint(ps[k], ps[last]));
    }
}

} // verus!

verus! {

// ----- Container kinds -----

/// The container kinds that relocation distinguishes.
#[derive(Debug, Clone, Copy, PartialEq, Eq)]
pub enum MachKind {
    MachO32,
    MachO64,
    Fat32,
    Fat64,
    Other,
}

pub open spec fn magic_is(b: Seq<u8>, m0: u8, m1: u8, m2: u8, m3: u8) -> bool {
    b.len() >= 4 && b[0] == m0 && b[1] == m1 && b[2] == m2 && b[3] == m3
}

/// The kind that the first bytes of a file announce; files shorter than
/// sixteen bytes have none.
pub open spec fn kind_of(b: Seq<u8>) -> MachKind {
    if b.len() < 16 {
        MachKind::Other
    } else if magic_is(b, 0xfe, 0xed, 0xfa, 0xce) || magic_is(b, 0xce, 0xfa, 0xed, 0xfe) {
        MachKind::MachO32
    } else if magic_is(b, 0xfe, 0xed, 0xfa, 0xcf) || magic_is(b, 0xcf, 0xfa, 0xed, 0xfe) {
        MachKind::MachO64
    } else if magic_is(b, 0xca, 0xfe, 0xba, 0xbe) {
        MachKind::Fat32
    } else if magic_is(b, 0xca, 0xfe, 0xba, 0xbf) {
        MachKind::Fat64
    } else {
        MachKind::Other
    }
}

/// Relies on object's `FileKind::parse`: it reads sixteen bytes and decides
/// the Mach-O kinds by the first four (either byte order for thin files).
#[verifier::external_body]
fn file_kind(buf: &[u8]) -> (r: MachKind)
    ensures
        r == kind_of(buf@),
{
    match FileKind::parse(buf) {
        Ok(FileKind::MachO32) => MachKind::MachO32,
        Ok(FileKind::MachO64) => MachKind::MachO64,
        Ok(FileKind::MachOFat32) => MachKind::Fat32,
        Ok(FileKind::MachOFat64) => MachKind::Fat64,
        _ => MachKind::Other,
    }
}

// ----- Byte decoding -----

pub open spec fn be32(b: Seq<u8>, i: int) -> int {
    b[i] * 0x100_0000 + b[i + 1] * 0x1_0000 + b[i + 2] * 0x100 + b[i + 3]
}

pub open spec fn le32(b: Seq<u8>, i: int) -> int {
    b[i + 3] * 0x100_0000 + b[i + 2] * 0x1_0000 + b[i + 1] * 0x100 + b[i]
}

pub open spec fn be64(b: Seq<u8>, i: int) -> int {
    be32(b, i) * 0x1_0000_0000 + be32(b, i + 4)
}

pub open spec fn u32_at(b: Seq<u8>, i: int, little: bool) -> int {
    if little {
        le32(b, i)
    } else {
        be32(b, i)
    }
}

fn read_u32(b: &[u8], i: usize, little: bool) -> (r: u64)
    requires
        i + 4 <= b@.len(),
    ensures
        r as int == u32_at(b@, i as int, little),
        r < 0x1_0000_0000,
{
    let _n = b.len();
    let (a0, a1, a2, a3) = if little {
        (b[i + 3] as u64, b[i + 2] as u64, b[i + 1] as u64, b[i] as u64)
    } else {
        (b[i] as u64, b[i + 1] as u64, b[i + 2] as u64, b[i + 3] as u64)
    };
    a0 * 0x100_0000 + a1 * 0x1_0000 + a2 * 0x100 + a3
}

// ----- FAT headers -----

/// The (offset, size) pairs of the `n` architecture records of a FAT
/// header whose records are `width` bytes long: big-endian, 32-bit fields
/// for FAT 32 and 64-bit fields for FAT 64, after the cputype pair.
pub open spec fn fat_records(b: Seq<u8>, n: int, width: int) -> Seq<(u64, u64)> {
    Seq::new(
        n as nat,
        |k: int|
            if width == 20 {
                (be32(b, 8 + k * 20 + 8) as u64, be32(b, 8 + k * 20 + 12) as u64)
            } else {
                (be64(b, 8 + k * 32 + 8) as u64, be64(b, 8 + k * 32 + 16) as u64)
            },
    )
}

/// A FAT header with magic `cafeba<m>` followed by all of its `width`-byte
/// architecture records.
pub open spec fn fat_header_ok(b: Seq<u8>, m: u8, width: int) -> bool {
    magic_is(b, 0xca, 0xfe, 0xba, m) && 8 + be32(b, 4) * width <= b.len()
}

/// The architecture records of a FAT 32 header, when it is whole.
pub open spec fn fat32_arches_of(b: Seq<u8>) -> Option<Seq<(u64, u64)>> {
    if fat_header_ok(b, 0xbe, 20) {
        Some(fat_records(b, be32(b, 4), 20))
    } else {
        None
    }
}

/// The architecture records of a FAT 64 header, when it is whole.
pub open spec fn fat64_arches_of(b: Seq<u8>) -> Option<Seq<(u64, u64)>> {
    if fat_header_ok(b, 0xbf, 32) {
        Some(fat_records(b, be32(b, 4), 32))
    } else {
        None
    }
}

pub open spec fn vec_pairs_view(r: Option<Vec<(u64, u64)>>) -> Option<Seq<(u64, u64)>> {
    match r {
        Some(v) => Some(v@),
        None => None,
    }
}

/// Relies on object's `MachOFatFile32::parse` and `FatArch::file_range`: a
/// header with the FAT 32 magic and `nfat_arch` twenty-byte records, each
/// giving its slice's offset and size.
#[verifier::external_body]
fn fat_arches_32(buf: &[u8]) -> (r: Option<Vec<(u64, u64)>>)
    ensures
        r is Some <==> fat_header_ok(buf@, 0xbe, 20),
        r matches Some(v) ==> v@ == fat_records(buf@, be32(buf@, 4), 20),
{
    match MachOFatFile32::parse(buf) {
        Ok(fat) => Some(fat.arches().iter().map(|a| a.file_range()).collect()),
        Err(_) => None,
    }
}

/// Relies on object's `MachOFatFile64::parse` and `FatArch::file_range`: a
/// header with the FAT 64 magic and `nfat_arch` thirty-two-byte records,
/// each giving its slice's offset and size.
#[verifier::external_body]
fn fat_arches_64(buf: &[u8]) -> (r: Option<Vec<(u64, u64)>>)
    ensures
        r is Some <==> fat_header_ok(buf@, 0xbf, 32),
        r matches Some(v) ==> v@ == fat_records(buf@, be32(buf@, 4), 32),
{
    match MachOFatFile64::parse(buf) {
        Ok(fat) => Some(fat.arches().iter().map(|a| a.file_range()).collect()),
        Err(_) => None,
    }
}

// ----- Load-command tables -----

/// What a Mach-O parser makes of a slice: no Mach-O header at all, a header
/// whose command table cannot be walked, or the raw bytes of each command.
pub enum CommandTable {
    NotMachO,
    Malformed,
    Commands(Vec<Vec<u8>>),
}

pub open spec fn table_view(t: CommandTable) -> Option<Option<Seq<Seq<u8>>>> {
    match t {
        CommandTable::NotMachO => None,
        CommandTable::Malformed => Some(None),
        CommandTable::Commands(v) => Some(Some(v@.map_values(|c: Vec<u8>| c@))),
    }
}

/// Total length of the commands.
pub open spec fn total_len(cs: Seq<Seq<u8>>) -> int
    decreases cs.len(),
{
    if cs.len() == 0 {
        0
    } else {
        total_len(cs.drop_last()) + cs.last().len()
    }
}

/// The commands follow one another in `b` from `header` on, each at least
/// eight bytes long.
pub open spec fn laid_out(b: Seq<u8>, header: int, cs: Seq<Seq<u8>>) -> bool {
    &&& header + total_len(cs) <= b.len()
    &&& forall|k: int|
        0 <= k < cs.len() ==> #[trigger] cs[k].len() >= 8 && cs[k] == b.subrange(
            header + total_len(cs.subrange(0, k)),
            header + total_len(cs.subrange(0, k)) + cs[k].len(),
        )
}

/// What object's `MachOFile::parse` for a 32-bit header and its load-command
/// iterator give for a slice.
pub uninterp spec fn macho32_commands_of(b: Seq<u8>) -> Option<Option<Seq<Seq<u8>>>>;

/// What object's `MachOFile::parse` for a 64-bit header and its load-command
/// iterator give for a slice.
pub uninterp spec fn macho64_commands_of(b: Seq<u8>) -> Option<Option<Seq<Seq<u8>>>>;

/// Relies on object's `MachOFile::<MachHeader32<_>>::parse`,
/// `macho_load_commands` and `LoadCommandIterator::next`: commands are read
/// one after another from the end of the 28-byte header, each `cmdsize`
/// bytes long and at least eight.
#[verifier::external_body]
fn load_commands_32(slice: &[u8]) -> (r: CommandTable)
    ensures
        table_view(r) == macho32_commands_of(slice@),
        table_view(r) matches Some(Some(cs)) ==> laid_out(slice@, 28, cs),
{
    let Ok(file) = MachOFile::<MachHeader32<Endianness>, &[u8]>::parse(slice) else {
        return CommandTable::NotMachO;
    };
    let Ok(mut it) = file.macho_load_commands() else {
        return CommandTable::Malformed;
    };
    let mut cmds = Vec::new();
    loop {
        match it.next() {
            Ok(Some(c)) => cmds.push(c.raw_data().to_vec()),
            Ok(None) => return CommandTable::Commands(cmds),
            Err(_) => return CommandTable::Malformed,
        }
    }
}

/// Relies on object's `MachOFile::<MachHeader64<_>>::parse`,
/// `macho_load_commands` and `LoadCommandIterator::next`: commands are read
/// one after another from the end of the 32-byte header, each `cmdsize`
/// bytes long and at least eight.
#[verifier::external_body]
fn load_commands_64(slice: &[u8]) -> (r: CommandTable)
    ensures
        table_view(r) == macho64_commands_of(slice@),
        table_view(r) matches Some(Some(cs)) ==> laid_out(slice@, 32, cs),
{
    let Ok(file) = MachOFile::<MachHeader64<Endianness>, &[u8]>::parse(slice) else {
        return CommandTable::NotMachO;
    };
    let Ok(mut it) = file.macho_load_commands() else {
        return CommandTable::Malformed;
    };
    let mut cmds = Vec::new();
    loop {
        match it.next() {
            Ok(Some(c)) => cmds.push(c.raw_data().to_vec()),
            Ok(None) => return CommandTable::Commands(cmds),
            Err(_) => return CommandTable::Malformed,
        }
    }
}

/// Relies on `std::str::from_utf8`: it succeeds exactly on valid UTF-8.
#[verifier::external_body]
fn is_utf8(b: &[u8]) -> (r: bool)
    ensures
        r == valid_utf8(b@),
{
    std::str::from_utf8(b).is_ok()
}

} // verus!

verus! {

// ----- Path-carrying load commands -----

pub open spec fn is_dylib_cmd(cmd: int) -> bool {
    cmd == 0xc || cmd == 0xd || cmd == 0x8000_0018 || cmd == 0x8000_001f || cmd == 0x20 || cmd
        == 0x8000_0023
}

pub open spec fn is_rpath_cmd(cmd: int) -> bool {
    cmd == 0x8000_001c
}

/// Smallest size of a dylib command (24 bytes) or an rpath command (12
/// bytes); zero for commands that carry no rewritable path.
pub open spec fn min_path_cmd_size(cmd: int) -> int {
    if is_dylib_cmd(cmd) {
        24
    } else if is_rpath_cmd(cmd) {
        12
    } else {
        0
    }
}

/// Index of the first NUL at or after `i`, or -1 when there is none.
pub open spec fn string_end(d: Seq<u8>, i: int) -> int
    decreases d.len() - i,
{
    if i < 0 || i >= d.len() {
        -1
    } else if d[i] == 0 {
        i
    } else {
        string_end(d, i + 1)
    }
}

/// The offset inside the command and the bytes of the NUL-terminated path
/// of a load-dylib, id-dylib or rpath command.
pub open spec fn cmd_string(d: Seq<u8>, little: bool) -> Option<(int, Seq<u8>)> {
    if d.len() < 8 {
        None
    } else {
        let min = min_path_cmd_size(u32_at(d, 0, little));
        if min == 0 || d.len() < min {
            None
        } else {
            let off = u32_at(d, 8, little);
            let e = string_end(d, off);
            if e < 0 {
                None
            } else {
                Some((off, d.subrange(off, e)))
            }
        }
    }
}

/// Offset, old path and new path of a command whose UTF-8 path holds a placeholder.
pub open spec fn command_rewrite(d: Seq<u8>, little: bool, reps: Seq<(Seq<u8>, Seq<u8>)>) -> Option<
    (int, Seq<u8>, Seq<u8>),
> {
    match cmd_string(d, little) {
        Some((off, old)) => if valid_utf8(old) {
            match replaced_path(old, reps) {
                Some(new) => Some((off, old, new)),
                None => None,
            }
        } else {
            None
        },
        None => None,
    }
}

pub type SkipView = (Seq<u8>, Seq<u8>);

/// The plan for one command at `at` in the file: a patch when the new path
/// and its NUL fit in the rest of the command, else a skipped record.
pub open spec fn command_plan(
    d: Seq<u8>,
    little: bool,
    reps: Seq<(Seq<u8>, Seq<u8>)>,
    at: int,
) -> (Seq<PatchView>, Seq<SkipView>) {
    match command_rewrite(d, little, reps) {
        Some((off, old, new)) => {
            let alloc = d.len() - off;
            if new.len() + 1 > alloc {
                (Seq::empty(), seq![(old, new)])
            } else {
                (seq![(at + off, alloc, new)], Seq::empty())
            }
        },
        None => (Seq::empty(), Seq::empty()),
    }
}

/// The plans of consecutive commands, the first starting at `start`.
pub open spec fn plan_commands(
    cs: Seq<Seq<u8>>,
    little: bool,
    reps: Seq<(Seq<u8>, Seq<u8>)>,
    start: int,
) -> (Seq<PatchView>, Seq<SkipView>)
    decreases cs.len(),
{
    if cs.len() == 0 {
        (Seq::empty(), Seq::empty())
    } else {
        let prev = plan_commands(cs.drop_last(), little, reps, start);
        let cur = command_plan(cs.last(), little, reps, start + total_len(cs.drop_last()));
        (prev.0 + cur.0, prev.1 + cur.1)
    }
}

pub open spec fn skips_view(s: Seq<SkippedPath>) -> Seq<SkipView> {
    s.map_values(|k: SkippedPath| (k.old_path@, k.new_path@))
}

pub open spec fn cmds_view(cs: Seq<Vec<u8>>) -> Seq<Seq<u8>> {
    cs.map_values(|c: Vec<u8>| c@)
}

proof fn lemma_total_len_prefix(cs: Seq<Seq<u8>>, k: int)
    requires
        0 <= k <= cs.len(),
    ensures
        0 <= total_len(cs.subrange(0, k)) <= total_len(cs),
    decreases cs.len(),
{
    if k == cs.len() {
        assert(cs.subrange(0, k) =~= cs);
        lemma_total_len_nonneg(cs);
    } else {
        assert(cs.subrange(0, k) =~= cs.drop_last().subrange(0, k));
        lemma_total_len_prefix(cs.drop_last(), k);
    }
}

proof fn lemma_total_len_nonneg(cs: Seq<Seq<u8>>)
    ensures
        total_len(cs) >= 0,
    decreases cs.len(),
{
    if cs.len() > 0 {
        lemma_total_len_nonneg(cs.drop_last());
    }
}

/// Index of the first NUL of `d` at or after `from`.
fn find_string_end(d: &[u8], from: usize) -> (r: Option<usize>)
    ensures
        match r {
            Some(e) => e as int == string_end(d@, from as int) && from <= e < d@.len(),
            None => string_end(d@, from as int) == -1,
        },
{
    let mut i = from;
    while i < d.len()
        invariant
            from <= i,
            string_end(d@, from as int) == string_end(d@, i as int),
        decreases d@.len() - i,
    {
        if d[i] == 0 {
            return Some(i);
        }
        i = i + 1;
    }
    None
}

/// The path string of a dylib or rpath command, with its offset.
fn command_string(d: &[u8], little: bool) -> (r: Option<(usize, Vec<u8>)>)
    ensures
        match r {
            Some((off, s)) => cmd_string(d@, little) == Some((off as int, s@)),
            None => cmd_string(d@, little) is None,
        },
{
    if d.len() < 8 {
        return None;
    }
    let cmd = read_u32(d, 0, little);
    let min: usize = if cmd == 0xc || cmd == 0xd || cmd == 0x8000_0018 || cmd == 0x8000_001f || cmd
        == 0x20 || cmd == 0x8000_0023 {
        24
    } else if cmd == 0x8000_001c {
        12
    } else {
        0
    };
    if min == 0 || d.len() < min {
        return None;
    }
    let off = read_u32(d, 8, little);
    if off >= d.len() as u64 {
        return None;
    }
    let off = off as usize;
    match find_string_end(d, off) {
        Some(e) => {
            let mut s: Vec<u8> = Vec::new();
            let mut i = off;
            while i < e
                invariant
                    off <= i <= e,
                    e < d@.len(),
                    s@ == d@.subrange(off as int, i as int),
                decreases e - i,
            {
                s.push(d[i]);
                i = i + 1;
                assert(s@ =~= d@.subrange(off as int, i as int));
            }
            Some((off, s))
        },
        None => None,
    }
}

/// The plan for one command whose first byte is at `at` in the file.
fn plan_command(d: &[u8], little: bool, replacements: &Vec<(Vec<u8>, Vec<u8>)>, at: usize) -> (r: (
    Option<PatchInfo>,
    Option<SkippedPath>,
))
    requires
        at + d@.len() <= usize::MAX,
    ensures
        ({
            let p = command_plan(d@, little, pairs_view(replacements@), at as int);
            &&& r.0 matches Some(pi) ==> p.0 == seq![patch_view(pi)]
            &&& r.0 is None ==> p.0 == Seq::<PatchView>::empty()
            &&& r.1 matches Some(sk) ==> p.1 == seq![(sk.old_path@, sk.new_path@)]
            &&& r.1 is None ==> p.1 == Seq::<SkipView>::empty()
        }),
{
    let (off, old) = match command_string(d, little) {
        Some(x) => x,
        None => return (None, None),
    };
    if !is_utf8(old.as_slice()) {
        return (None, None);
    }
    let new_path = match find_and_replace_placeholders(old.as_slice(), replacements) {
        Some(n) => n,
        None => return (None, None),
    };
    let allocated = d.len() - off;
    if new_path.len() >= allocated {
        (None, Some(SkippedPath { old_path: old, new_path }))
    } else {
        (Some(PatchInfo { absolute_offset: at + off, allocated_len: allocated, new_path }), None)
    }
}

/// Walks the commands of one slice: the first begins `header_size` bytes
/// after `slice_base`, each next one where the previous ends.
pub fn find_patches_in_commands(
    cmds: &Vec<Vec<u8>>,
    little: bool,
    slice_base: usize,
    header_size: usize,
    replacements: &Vec<(Vec<u8>, Vec<u8>)>,
) -> (r: (Vec<PatchInfo>, Vec<SkippedPath>))
    requires
        slice_base + header_size + total_len(cmds_view(cmds@)) <= usize::MAX,
    ensures
        (patches_view(r.0@), skips_view(r.1@)) == plan_commands(
            cmds_view(cmds@),
            little,
            pairs_view(replacements@),
            slice_base + header_size,
        ),
{
    let ghost cs = cmds_view(cmds@);
    let ghost reps = pairs_view(replacements@);
    let ghost start = slice_base + header_size;
    let mut patches: Vec<PatchInfo> = Vec::new();
    let mut skipped: Vec<SkippedPath> = Vec::new();
    proof {
        lemma_total_len_nonneg(cs);
        assert(cs.subrange(0, 0) =~= Seq::<Seq<u8>>::empty());
    }
    let mut cur: usize = slice_base + header_size;
    let mut k: usize = 0;
    while k < cmds.len()
        invariant
            cs == cmds_view(cmds@),
            reps == pairs_view(replacements@),
            start == slice_base + header_size,
            start + total_len(cs) <= usize::MAX,
            k <= cmds@.len(),
            cur == start + total_len(cs.subrange(0, k as int)),
            (patches_view(patches@), skips_view(skipped@)) == plan_commands(
                cs.subrange(0, k as int),
                little,
                reps,
                start,
            ),
        decreases cmds@.len() - k,
    {
        let d = cmds[k].as_slice();
        proof {
            lemma_total_len_prefix(cs, k + 1);
            let pre = cs.subrange(0, k + 1);
            assert(pre.drop_last() =~= cs.subrange(0, k as int));
            assert(pre.last() == d@);
            lemma_total_len_nonneg(cs.subrange(0, k as int));
        }
        let (p, s) = plan_command(d, little, replacements, cur);
        let ghost pv = patches_view(patches@);
        let ghost sv = skips_view(skipped@);
        match p {
            Some(pi) => {
                patches.push(pi);
            },
            None => {},
        }
        match s {
            Some(sk) => {
                skipped.push(sk);
            },
            None => {},
        }
        proof {
            let pre = cs.subrange(0, k + 1);
            let c = command_plan(pre.last(), little, reps, start + total_len(pre.drop_last()));
            assert(patches_view(patches@) =~= pv + c.0);
            assert(skips_view(skipped@) =~= sv + c.1);
        }
        cur = cur + d.len();
        k = k + 1;
    }
    assert(cs.subrange(0, k as int) =~= cs);
    (patches, skipped)
}

/// A replacement that leaves exactly one byte for the NUL is patched; one
/// that fills the whole allocated length is recorded as skipped.
pub proof fn lemma_allocated_length_boundary(
    d: Seq<u8>,
    little: bool,
    reps: Seq<(Seq<u8>, Seq<u8>)>,
    at: int,
)
    requires
        command_rewrite(d, little, reps) is Some,
    ensures
        ({
            let (off, old, new) = command_rewrite(d, little, reps).unwrap();
            let alloc = d.len() - off;
            &&& new.len() == alloc - 1 ==> command_plan(d, little, reps, at) == (
                seq![(at + off, alloc, new)],
                Seq::<SkipView>::empty(),
            )
            &&& new.len() == alloc ==> command_plan(d, little, reps, at) == (
                Seq::<PatchView>::empty(),
                seq![(old, new)],
            )
        }),
{
}

} // verus!

verus! {

// ----- Whole-file analysis -----

/// Patches and skipped records planned for a file.
pub type Plan = (Seq<PatchView>, Seq<SkipView>);

pub open spec fn empty_plan() -> Plan {
    (Seq::empty(), Seq::empty())
}

pub open spec fn join_plans(p: Plan, q: Plan) -> Plan {
    (p.0 + q.0, p.1 + q.1)
}

/// The slice starts with the magic of a static `ar` archive, `!<arch>\n`.
pub open spec fn starts_with_ar(s: Seq<u8>) -> bool {
    s.len() >= 8 && s[0] == 0x21 && s[1] == 0x3c && s[2] == 0x61 && s[3] == 0x72 && s[4] == 0x63
        && s[5] == 0x68 && s[6] == 0x3e && s[7] == 0x0a
}

/// The plan of a command table. A slice that does not parse as Mach-O is an
/// error only where `strict`; a table that cannot be walked always is.
pub open spec fn table_plan(
    t: Option<Option<Seq<Seq<u8>>>>,
    little: bool,
    reps: Seq<(Seq<u8>, Seq<u8>)>,
    start: int,
    strict: bool,
) -> Option<Plan> {
    match t {
        None => if strict {
            None
        } else {
            Some(empty_plan())
        },
        Some(None) => None,
        Some(Some(cs)) => Some(plan_commands(cs, little, reps, start)),
    }
}

/// The architecture's slice lies in the file, is no static archive, and
/// holds the whole area of the patch.
pub open spec fn arch_holds(b: Seq<u8>, arch: (u64, u64), p: PatchView) -> bool {
    &&& arch.0 + arch.1 <= b.len()
    &&& !starts_with_ar(b.subrange(arch.0 as int, arch.0 + arch.1))
    &&& within(p, arch.0 as int, arch.0 + arch.1)
}

/// One of the first `n` architectures holds the patch.
pub open spec fn held_by_arch(b: Seq<u8>, arches: Seq<(u64, u64)>, n: int, p: PatchView) -> bool {
    exists|j: int| 0 <= j < n && #[trigger] arch_holds(b, arches[j], p)
}

/// The two slices share no byte.
pub open spec fn slices_apart(x: (u64, u64), y: (u64, u64)) -> bool {
    x.0 + x.1 <= y.0 || y.0 + y.1 <= x.0
}

/// No two architecture slices share a byte.
pub open spec fn ranges_disjoint(arches: Seq<(u64, u64)>) -> bool {
    forall|a: int, c: int|
        0 <= a < arches.len() && 0 <= c < arches.len() && a != c ==> #[trigger] slices_apart(
            arches[a],
            arches[c],
        )
}

/// The slice starts with a 64-bit Mach-O magic, in either byte order.
pub open spec fn is64_magic(s: Seq<u8>) -> bool {
    s.len() >= 4 && (le32(s, 0) == 0xfeedfacf || be32(s, 0) == 0xfeedfacf)
}

/// The slice starts with a 32-bit Mach-O magic, in either byte order.
pub open spec fn is32_magic(s: Seq<u8>) -> bool {
    s.len() >= 4 && (le32(s, 0) == 0xfeedface || be32(s, 0) == 0xfeedface)
}

/// The command table that the parser gives for an architecture's Mach-O
/// slice lies in that slice, right after its header.
pub open spec fn slice_commands_laid_out(b: Seq<u8>, arch: (u64, u64)) -> bool {
    let off = arch.0 as int;
    let sz = arch.1 as int;
    let s = b.subrange(off, off + sz);
    (off + sz <= b.len() && !starts_with_ar(s)) ==> {
        &&& is64_magic(s) ==> (macho64_commands_of(s) matches Some(Some(cs)) ==> laid_out(s, 32, cs))
        &&& (!is64_magic(s) && is32_magic(s)) ==> (macho32_commands_of(s) matches Some(Some(cs))
            ==> laid_out(s, 28, cs))
    }
}

/// The plan of one architecture of a FAT file, read in the byte order that
/// the slice's own magic declares. Archives, slices outside the file and
/// slices without a Mach-O magic add nothing.
pub open spec fn slice_plan(b: Seq<u8>, arch: (u64, u64), reps: Seq<(Seq<u8>, Seq<u8>)>) -> Option<
    Plan,
> {
    let off = arch.0 as int;
    let sz = arch.1 as int;
    if off + sz > b.len() {
        Some(empty_plan())
    } else {
        let s = b.subrange(off, off + sz);
        if starts_with_ar(s) || s.len() < 4 {
            Some(empty_plan())
        } else if le32(s, 0) == 0xfeedfacf || be32(s, 0) == 0xfeedfacf {
            table_plan(macho64_commands_of(s), le32(s, 0) == 0xfeedfacf, reps, off + 32, false)
        } else if le32(s, 0) == 0xfeedface || be32(s, 0) == 0xfeedface {
            table_plan(macho32_commands_of(s), le32(s, 0) == 0xfeedface, reps, off + 28, false)
        } else {
            Some(empty_plan())
        }
    }
}

/// The plans of the architectures in order; the first error ends the walk.
pub open spec fn fat_plan(b: Seq<u8>, arches: Seq<(u64, u64)>, reps: Seq<(Seq<u8>, Seq<u8>)>) -> Option<
    Plan,
>
    decreases arches.len(),
{
    if arches.len() == 0 {
        Some(empty_plan())
    } else {
        match fat_plan(b, arches.drop_last(), reps) {
            None => None,
            Some(p) => match slice_plan(b, arches.last(), reps) {
                None => None,
                Some(q) => Some(join_plans(p, q)),
            },
        }
    }
}

/// A thin file is little-endian when its magic starts with `ce` or `cf`.
pub open spec fn thin_little(b: Seq<u8>) -> bool {
    b[0] == 0xce || b[0] == 0xcf
}

/// The plan for a whole file, or `None` where the file is a Mach-O or FAT
/// container that cannot be parsed or whose slices overlap.
pub open spec fn collect_spec(b: Seq<u8>, reps: Seq<(Seq<u8>, Seq<u8>)>) -> Option<Plan> {
    match kind_of(b) {
        MachKind::MachO32 => table_plan(macho32_commands_of(b), thin_little(b), reps, 28, true),
        MachKind::MachO64 => table_plan(macho64_commands_of(b), thin_little(b), reps, 32, true),
        MachKind::Fat32 => match fat32_arches_of(b) {
            Some(a) => fat_collect(b, a, reps),
            None => None,
        },
        MachKind::Fat64 => match fat64_arches_of(b) {
            Some(a) => fat_collect(b, a, reps),
            None => None,
        },
        MachKind::Other => Some(empty_plan()),
    }
}

/// A FAT file whose slices overlap is refused; otherwise its plan is that
/// of its architectures.
pub open spec fn fat_collect(b: Seq<u8>, a: Seq<(u64, u64)>, reps: Seq<(Seq<u8>, Seq<u8>)>) -> Option<
    Plan,
> {
    if ranges_disjoint(a) {
        fat_plan(b, a, reps)
    } else {
        None
    }
}

/// The architecture records of a FAT file, as its header gives them.
pub open spec fn fat_arches_spec(b: Seq<u8>) -> Option<Seq<(u64, u64)>> {
    match kind_of(b) {
        MachKind::Fat32 => fat32_arches_of(b),
        MachKind::Fat64 => fat64_arches_of(b),
        _ => None,
    }
}

pub open spec fn result_plan(r: Result<(Vec<PatchInfo>, Vec<SkippedPath>), SpsError>) -> Option<
    Plan,
> {
    match r {
        Ok((p, s)) => Some((patches_view(p@), skips_view(s@))),
        Err(_) => None,
    }
}

fn malformed() -> (e: SpsError)
    ensures
        e is Generic,
{
    SpsError::Generic(String::from_str("malformed Mach-O load command table"))
}

/// The plan of one command table.
fn plan_table(
    t: CommandTable,
    slice: &[u8],
    header_size: usize,
    little: bool,
    slice_base: usize,
    replacements: &Vec<(Vec<u8>, Vec<u8>)>,
    strict: bool,
) -> (r: Result<(Vec<PatchInfo>, Vec<SkippedPath>), SpsError>)
    requires
        slice_base + slice@.len() <= usize::MAX,
        table_view(t) matches Some(Some(cs)) ==> laid_out(slice@, header_size as int, cs),
    ensures
        result_plan(r) == table_plan(
            table_view(t),
            little,
            pairs_view(replacements@),
            slice_base + header_size,
            strict,
        ),
        r matches Err(e) ==> e is Generic,
        r matches Ok((p, _)) ==> all_fit(patches_view(p@), slice_base + slice@.len())
            && pairwise_disjoint(patches_view(p@)) && forall|k: int|
            0 <= k < p@.len() ==> slice_base <= #[trigger] patches_view(p@)[k].0,
{
    match t {
        CommandTable::NotMachO => if strict {
            Err(SpsError::Generic(String::from_str("not a Mach-O file")))
        } else {
            assert(patches_view(Seq::<PatchInfo>::empty()) =~= Seq::<PatchView>::empty());
            assert(skips_view(Seq::<SkippedPath>::empty()) =~= Seq::<SkipView>::empty());
            Ok((Vec::new(), Vec::new()))
        },
        CommandTable::Malformed => Err(malformed()),
        CommandTable::Commands(cmds) => {
            let ghost cs = cmds_view(cmds@);
            assert(cs == table_view(t)->Some_0->Some_0);
            let r = find_patches_in_commands(&cmds, little, slice_base, header_size, replacements);
            proof {
                lemma_plan_commands_disjoint(
                    cs,
                    little,
                    pairs_view(replacements@),
                    slice_base + header_size,
                );
                lemma_total_len_nonneg(cs);
                let ps = patches_view(r.0@);
                let plan = plan_commands(cs, little, pairs_view(replacements@), slice_base + header_size);
                assert(ps == plan.0);
                assert(laid_out(slice@, header_size as int, cs));
                assert forall|k: int| 0 <= k < ps.len() implies patch_fits(
                    #[trigger] ps[k],
                    slice_base + slice@.len(),
                ) && slice_base <= ps[k].0 by {
                    assert(plan.0[k] == ps[k]);
                    assert(within(plan.0[k], slice_base + header_size, slice_base + header_size + total_len(cs)));
                }
            }
            Ok(r)
        },
    }
}

/// The plan of one architecture of a FAT file.
fn plan_slice(buffer: &[u8], off: u64, sz: u64, replacements: &Vec<(Vec<u8>, Vec<u8>)>) -> (r: Result<
    (Vec<PatchInfo>, Vec<SkippedPath>),
    SpsError,
>)
    ensures
        result_plan(r) == slice_plan(buffer@, (off, sz), pairs_view(replacements@)),
        r matches Err(e) ==> e is Generic,
        r matches Ok((p, _)) ==> all_fit(patches_view(p@), buffer@.len() as int),
        r matches Ok((p, _)) ==> pairwise_disjoint(patches_view(p@)) && forall|k: int|
            0 <= k < p@.len() ==> arch_holds(buffer@, (off, sz), #[trigger] patches_view(p@)[k]),
        slice_commands_laid_out(buffer@, (off, sz)),
{
    let n = buffer.len();
    if sz > n as u64 || off > n as u64 - sz {
        proof {
            assert(patches_view(Seq::<PatchInfo>::empty()) =~= Seq::<PatchView>::empty());
            assert(skips_view(Seq::<SkippedPath>::empty()) =~= Seq::<SkipView>::empty());
        }
        return Ok((Vec::new(), Vec::new()));
    }
    let start = off as usize;
    let slice = slice_subrange(buffer, start, start + sz as usize);
    proof {
        assert(patches_view(Seq::<PatchInfo>::empty()) =~= Seq::<PatchView>::empty());
        assert(skips_view(Seq::<SkippedPath>::empty()) =~= Seq::<SkipView>::empty());
    }
    if slice.len() < 4 {
        return Ok((Vec::new(), Vec::new()));
    }
    if slice.len() >= 8 && slice[0] == 0x21 && slice[1] == 0x3c && slice[2] == 0x61 && slice[3]
        == 0x72 && slice[4] == 0x63 && slice[5] == 0x68 && slice[6] == 0x3e && slice[7] == 0x0a {
        return Ok((Vec::new(), Vec::new()));
    }
    let le = read_u32(slice, 0, true);
    let be = read_u32(slice, 0, false);
    if le == 0xfeedfacf || be == 0xfeedfacf {
        let t = load_commands_64(slice);
        plan_table(t, slice, 32, le == 0xfeedfacf, start, replacements, false)
    } else if le == 0xfeedface || be == 0xfeedface {
        let t = load_commands_32(slice);
        plan_table(t, slice, 28, le == 0xfeedface, start, replacements, false)
    } else {
        Ok((Vec::new(), Vec::new()))
    }
}

proof fn lemma_fat_error_is_final(
    b: Seq<u8>,
    arches: Seq<(u64, u64)>,
    reps: Seq<(Seq<u8>, Seq<u8>)>,
    k: int,
)
    requires
        0 <= k <= arches.len(),
        fat_plan(b, arches.subrange(0, k), reps) is None,
    ensures
        fat_plan(b, arches, reps) is None,
    decreases arches.len(),
{
    if k == arches.len() {
        assert(arches.subrange(0, k) =~= arches);
    } else {
        assert(arches.subrange(0, k) =~= arches.drop_last().subrange(0, k));
        lemma_fat_error_is_final(b, arches.drop_last(), reps, k);
    }
}

/// Whether no two architecture slices share a byte.
fn slices_disjoint(arches: &Vec<(u64, u64)>) -> (r: bool)
    ensures
        r == ranges_disjoint(arches@),
{
    let n = arches.len();
    let mut a: usize = 0;
    while a < n
        invariant
            n == arches@.len(),
            a <= n,
            forall|x: int, c: int|
                0 <= x < a && 0 <= c < n && x != c ==> #[trigger] slices_apart(arches@[x], arches@[c]),
        decreases n - a,
    {
        let mut c: usize = 0;
        while c < n
            invariant
                n == arches@.len(),
                a < n,
                c <= n,
                forall|x: int, y: int|
                    0 <= x < a && 0 <= y < n && x != y ==> #[trigger] slices_apart(arches@[x], arches@[y]),
                forall|y: int| 0 <= y < c && y != a ==> #[trigger] slices_apart(arches@[a as int], arches@[y]),
            decreases n - c,
        {
            if c != a {
                let (ao, asz) = arches[a];
                let (co, csz) = arches[c];
                if !(ao as u128 + asz as u128 <= co as u128 || co as u128 + csz as u128 <= ao as u128) {
                    assert(!slices_apart(arches@[a as int], arches@[c as int]));
                    return false;
                }
            }
            c = c + 1;
        }
        a = a + 1;
    }
    true
}

/// The plans of the architectures of a FAT file, in order.
fn plan_fat(buffer: &[u8], arches: &Vec<(u64, u64)>, replacements: &Vec<(Vec<u8>, Vec<u8>)>) -> (r:
    Result<(Vec<PatchInfo>, Vec<SkippedPath>), SpsError>)
    ensures
        result_plan(r) == fat_plan(buffer@, arches@, pairs_view(replacements@)),
        r matches Err(e) ==> e is Generic,
        r matches Ok((p, _)) ==> all_fit(patches_view(p@), buffer@.len() as int),
        r matches Ok((p, _)) ==> forall|k: int|
            0 <= k < p@.len() ==> held_by_arch(
                buffer@,
                arches@,
                arches@.len() as int,
                #[trigger] patches_view(p@)[k],
            ),
        r matches Ok((p, _)) ==> ranges_disjoint(arches@) ==> pairwise_disjoint(patches_view(p@)),
        r is Ok ==> forall|j: int|
            0 <= j < arches@.len() ==> #[trigger] slice_commands_laid_out(buffer@, arches@[j]),
{
    let ghost reps = pairs_view(replacements@);
    let mut patches: Vec<PatchInfo> = Vec::new();
    let mut skipped: Vec<SkippedPath> = Vec::new();
    let mut k: usize = 0;
    proof {
        assert(arches@.subrange(0, 0) =~= Seq::<(u64, u64)>::empty());
        assert(patches_view(patches@) =~= Seq::<PatchView>::empty());
        assert(skips_view(skipped@) =~= Seq::<SkipView>::empty());
    }
    while k < arches.len()
        invariant
            reps == pairs_view(replacements@),
            k <= arches@.len(),
            fat_plan(buffer@, arches@.subrange(0, k as int), reps) == Some(
                (patches_view(patches@), skips_view(skipped@)),
            ),
            all_fit(patches_view(patches@), buffer@.len() as int),
            forall|i: int|
                0 <= i < patches@.len() ==> held_by_arch(
                    buffer@,
                    arches@,
                    k as int,
                    #[trigger] patches_view(patches@)[i],
                ),
            ranges_disjoint(arches@) ==> pairwise_disjoint(patches_view(patches@)),
            forall|j: int| 0 <= j < k ==> #[trigger] slice_commands_laid_out(buffer@, arches@[j]),
        decreases arches@.len() - k,
    {
        let (off, sz) = arches[k];
        proof {
            assert(arches@.subrange(0, k + 1).drop_last() =~= arches@.subrange(0, k as int));
        }
        match plan_slice(buffer, off, sz, replacements) {
            Err(e) => {
                proof {
                    lemma_fat_error_is_final(buffer@, arches@, reps, k + 1);
                }
                return Err(e);
            },
            Ok((mut p, mut s)) => {
                let ghost pv = patches_view(patches@);
                let ghost sv = skips_view(skipped@);
                let ghost pp = patches_view(p@);
                let ghost ss = skips_view(s@);
                patches.append(&mut p);
                skipped.append(&mut s);
                assert(patches_view(patches@) =~= pv + pp);
                assert forall|j: int| 0 <= j < patches_view(patches@).len() implies patch_fits(
                    #[trigger] patches_view(patches@)[j],
                    buffer@.len() as int,
                ) by {
                    if j >= pv.len() {
                        assert(patches_view(patches@)[j] == pp[j - pv.len()]);
                    } else {
                        assert(patches_view(patches@)[j] == pv[j]);
                    }
                }
                assert(skips_view(skipped@) =~= sv + ss);
                let ghost all = patches_view(patches@);
                let ghost arch = arches@[k as int];
                assert(arch == (off, sz));
                assert forall|i: int| 0 <= i < all.len() implies held_by_arch(
                    buffer@,
                    arches@,
                    k + 1,
                    #[trigger] all[i],
                ) by {
                    if i >= pv.len() {
                        assert(all[i] == pp[i - pv.len()]);
                        assert(arch_holds(buffer@, arches@[k as int], all[i]));
                    } else {
                        assert(all[i] == pv[i]);
                        assert(held_by_arch(buffer@, arches@, k as int, pv[i]));
                    }
                }
                proof {
                    if ranges_disjoint(arches@) {
                        assert forall|a: int, c: int|
                            0 <= a < all.len() && 0 <= c < all.len() && a != c implies disjoint(
                            #[trigger] all[a],
                            #[trigger] all[c],
                        ) by {
                            if a < pv.len() && c < pv.len() {
                                assert(all[a] == pv[a] && all[c] == pv[c]);
                            } else if a >= pv.len() && c >= pv.len() {
                                assert(all[a] == pp[a - pv.len()] && all[c] == pp[c - pv.len()]);
                            } else {
                                let (o, n) = if a < pv.len() {
                                    (a, c)
                                } else {
                                    (c, a)
                                };
                                assert(all[o] == pv[o]);
                                assert(all[n] == pp[n - pv.len()]);
                                assert(held_by_arch(buffer@, arches@, k as int, pv[o]));
                                let j = choose|j: int|
                                    0 <= j < k && #[trigger] arch_holds(buffer@, arches@[j], pv[o]);
                                assert(arch_holds(buffer@, arches@[k as int], all[n]));
                                assert(slices_apart(arches@[j], arches@[k as int]));
                            }
                        }
                    }
                }
            },
        }
        k = k + 1;
    }
    assert(arches@.subrange(0, k as int) =~= arches@);
    Ok((patches, skipped))
}

/// Phase one of relocation: every patch and skipped record of a Mach-O or
/// FAT file, without touching the buffer. Other files give an empty plan.
pub fn collect_macho_patches(buffer: &[u8], replacements: &Vec<(Vec<u8>, Vec<u8>)>) -> (r: Result<
    (Vec<PatchInfo>, Vec<SkippedPath>),
    SpsError,
>)
    ensures
        result_plan(r) == collect_spec(buffer@, pairs_view(replacements@)),
        r matches Err(e) ==> e is Generic,
        r matches Ok((p, _)) ==> all_fit(patches_view(p@), buffer@.len() as int),
        r matches Ok((p, _)) ==> pairwise_disjoint(patches_view(p@)),
        r matches Ok((p, _)) ==> fat_arches_spec(buffer@) matches Some(arches) ==> (forall|k: int|
            0 <= k < p@.len() ==> held_by_arch(
                buffer@,
                arches,
                arches.len() as int,
                #[trigger] patches_view(p@)[k],
            )) && ranges_disjoint(arches) && (forall|j: int|
            0 <= j < arches.len() ==> #[trigger] slice_commands_laid_out(buffer@, arches[j])),
        kind_of(buffer@) == MachKind::MachO32 ==> (macho32_commands_of(buffer@) matches Some(
            Some(cs),
        ) ==> laid_out(buffer@, 28, cs)),
        kind_of(buffer@) == MachKind::MachO64 ==> (macho64_commands_of(buffer@) matches Some(
            Some(cs),
        ) ==> laid_out(buffer@, 32, cs)),
{
    proof {
        assert(patches_view(Seq::<PatchInfo>::empty()) =~= Seq::<PatchView>::empty());
        assert(skips_view(Seq::<SkippedPath>::empty()) =~= Seq::<SkipView>::empty());
    }
    match file_kind(buffer) {
        MachKind::MachO32 => {
            let little = buffer[0] == 0xce || buffer[0] == 0xcf;
            let t = load_commands_32(buffer);
            plan_table(t, buffer, 28, little, 0, replacements, true)
        },
        MachKind::MachO64 => {
            let little = buffer[0] == 0xce || buffer[0] == 0xcf;
            let t = load_commands_64(buffer);
            plan_table(t, buffer, 32, little, 0, replacements, true)
        },
        MachKind::Fat32 => match fat_arches_32(buffer) {
            Some(arches) => if slices_disjoint(&arches) {
                plan_fat(buffer, &arches, replacements)
            } else {
                Err(SpsError::Generic(String::from_str("overlapping FAT slices")))
            },
            None => Err(SpsError::Generic(String::from_str("invalid FAT header"))),
        },
        MachKind::Fat64 => match fat_arches_64(buffer) {
            Some(arches) => if slices_disjoint(&arches) {
                plan_fat(buffer, &arches, replacements)
            } else {
                Err(SpsError::Generic(String::from_str("overlapping FAT slices")))
            },
            None => Err(SpsError::Generic(String::from_str("invalid FAT header"))),
        },
        MachKind::Other => Ok((Vec::new(), Vec::new())),
    }
}

} // verus!

verus! {

/// The outcome of relocating a file: the rewritten bytes when at least one
/// patch was planned, and the skipped records; `None` for an unparsable container.
pub open spec fn relocate_spec(b: Seq<u8>, reps: Seq<(Seq<u8>, Seq<u8>)>) -> Option<
    (Option<Seq<u8>>, Seq<SkipView>),
> {
    match collect_spec(b, reps) {
        None => None,
        Some((ps, sk)) => Some(
            (
                if ps.len() == 0 {
                    None
                } else {
                    Some(apply_patches_spec(b, ps))
                },
                sk,
            ),
        ),
    }
}

pub open spec fn relocate_view(r: Result<(Option<Vec<u8>>, Vec<SkippedPath>), SpsError>) -> Option<
    (Option<Seq<u8>>, Seq<SkipView>),
> {
    match r {
        Ok((b, s)) => Some(
            (
                match b {
                    Some(v) => Some(v@),
                    None => None,
                },
                skips_view(s@),
            ),
        ),
        Err(_) => None,
    }
}

/// Both phases of relocation on a file's bytes: analysis, then the
/// rewritten buffer when there is anything to rewrite. Writing the result
/// back and re-signing are left to the caller.
pub fn patch_macho_buffer(buffer: Vec<u8>, replacements: &Vec<(Vec<u8>, Vec<u8>)>) -> (r: Result<
    (Option<Vec<u8>>, Vec<SkippedPath>),
    SpsError,
>)
    ensures
        relocate_view(r) == relocate_spec(buffer@, pairs_view(replacements@)),
        r matches Err(e) ==> e is Generic,
{
    let (patches, skipped) = match collect_macho_patches(buffer.as_slice(), replacements) {
        Ok(x) => x,
        Err(e) => return Err(e),
    };
    if patches.len() == 0 {
        return Ok((None, skipped));
    }
    let mut patched = buffer;
    apply_patches(&mut patched, &patches);
    Ok((Some(patched), skipped))
}

/// An architecture whose slice is a static archive adds nothing to the plan
/// of a FAT file: the plan is that of the other architectures.
pub proof fn lemma_archive_slice_is_ignored(
    b: Seq<u8>,
    arches: Seq<(u64, u64)>,
    reps: Seq<(Seq<u8>, Seq<u8>)>,
    j: int,
)
    requires
        0 <= j < arches.len(),
        arches[j].0 + arches[j].1 <= b.len(),
        starts_with_ar(b.subrange(arches[j].0 as int, arches[j].0 + arches[j].1)),
    ensures
        fat_plan(b, arches, reps) == fat_plan(b, arches.remove(j), reps),
    decreases arches.len(),
{
    let last = arches.len() - 1;
    if j == last {
        assert(arches.remove(j) =~= arches.drop_last());
        match fat_plan(b, arches.drop_last(), reps) {
            Some(p) => {
                assert(join_plans(p, empty_plan()) =~= p);
            },
            None => {},
        }
    } else {
        assert(arches.remove(j).drop_last() =~= arches.drop_last().remove(j));
        assert(arches.remove(j).last() == arches.last());
        assert(arches.drop_last()[j] == arches[j]);
        lemma_archive_slice_is_ignored(b, arches.drop_last(), reps, j);
    }
}

} // verus!

verus! {

/// Every patch fits a buffer of `len` bytes.
pub open spec fn all_fit(ps: Seq<PatchView>, len: int) -> bool {
    forall|k: int| 0 <= k < ps.len() ==> patch_fits(#[trigger] ps[k], len)
}

/// No two patch areas overlap.
pub open spec fn pairwise_disjoint(ps: Seq<PatchView>) -> bool {
    forall|a: int, c: int|
        0 <= a < ps.len() && 0 <= c < ps.len() && a != c ==> disjoint(#[trigger] ps[a], #[trigger] ps[c])
}

/// The patch lies in `[lo, hi)`.
pub open spec fn within(p: PatchView, lo: int, hi: int) -> bool {
    lo <= p.0 && p.0 + p.1 <= hi
}

proof fn lemma_string_end_bounds(d: Seq<u8>, i: int)
    ensures
        string_end(d, i) >= 0 ==> i <= string_end(d, i) < d.len(),
    decreases d.len() - i,
{
    if 0 <= i < d.len() && d[i] != 0 {
        lemma_string_end_bounds(d, i + 1);
    }
}

proof fn lemma_command_plan_within(d: Seq<u8>, little: bool, reps: Seq<(Seq<u8>, Seq<u8>)>, at: int)
    ensures
        forall|k: int|
            0 <= k < command_plan(d, little, reps, at).0.len() ==> within(
                #[trigger] command_plan(d, little, reps, at).0[k],
                at,
                at + d.len(),
            ) && command_plan(d, little, reps, at).0[k].2.len() + 1 <= command_plan(
                d,
                little,
                reps,
                at,
            ).0[k].1,
{
    if d.len() >= 8 {
        lemma_string_end_bounds(d, u32_at(d, 8, little));
    }
}

/// The patches planned for consecutive commands lie inside those commands
/// and no two of them overlap.
proof fn lemma_plan_commands_disjoint(
    cs: Seq<Seq<u8>>,
    little: bool,
    reps: Seq<(Seq<u8>, Seq<u8>)>,
    start: int,
)
    ensures
        ({
            let ps = plan_commands(cs, little, reps, start).0;
            &&& forall|k: int|
                0 <= k < ps.len() ==> within(#[trigger] ps[k], start, start + total_len(cs))
                    && ps[k].2.len() + 1 <= ps[k].1
            &&& forall|a: int, c: int|
                0 <= a < ps.len() && 0 <= c < ps.len() && a != c ==> disjoint(
                    #[trigger] ps[a],
                    #[trigger] ps[c],
                )
        }),
    decreases cs.len(),
{
    if cs.len() > 0 {
        let prev = plan_commands(cs.drop_last(), little, reps, start).0;
        let at = start + total_len(cs.drop_last());
        let cur = command_plan(cs.last(), little, reps, at).0;
        lemma_plan_commands_disjoint(cs.drop_last(), little, reps, start);
        lemma_command_plan_within(cs.last(), little, reps, at);
        let ps = prev + cur;
        lemma_total_len_nonneg(cs.drop_last());
        assert(plan_commands(cs, little, reps, start).0 == ps);
        assert forall|k: int| 0 <= k < ps.len() implies within(#[trigger] ps[k], start, start + total_len(cs))
            && ps[k].2.len() + 1 <= ps[k].1 by {
            if k >= prev.len() {
                assert(ps[k] == cur[k - prev.len()]);
            }
        }
        assert forall|a: int, c: int|
            0 <= a < ps.len() && 0 <= c < ps.len() && a != c implies disjoint(
            #[trigger] ps[a],
            #[trigger] ps[c],
        ) by {
            if a >= prev.len() {
                assert(ps[a] == cur[a - prev.len()]);
            }
            if c >= prev.len() {
                assert(ps[c] == cur[c - prev.len()]);
            }
        }
    }
}

/// A relocated file keeps its size, and every byte outside the planned
/// patch areas keeps its value.
pub proof fn lemma_relocation_keeps_size_and_other_bytes(
    b: Seq<u8>,
    reps: Seq<(Seq<u8>, Seq<u8>)>,
    i: int,
)
    requires
        relocate_spec(b, reps) matches Some((Some(_), _)),
    ensures
        ({
            let out = relocate_spec(b, reps)->Some_0.0->Some_0;
            let ps = collect_spec(b, reps)->Some_0.0;
            &&& out.len() == b.len()
            &&& 0 <= i < b.len() && (forall|k: int| 0 <= k < ps.len() ==> !in_patch(#[trigger] ps[k], i))
                ==> out[i] == b[i]
        }),
{
    let ps = collect_spec(b, reps)->Some_0.0;
    lemma_patch_keeps_length(b, ps);
    if 0 <= i < b.len() && (forall|k: int| 0 <= k < ps.len() ==> !in_patch(#[trigger] ps[k], i)) {
        lemma_patch_keeps_other_bytes(b, ps, i);
    }
}

} // verus!

verus! {

/// In a FAT file, relocation changes no byte outside the slices that are
/// Mach-O candidates: bytes of archive slices, of the header and of gaps
/// between slices keep their values.
pub proof fn lemma_fat_relocation_stays_in_slices(
    b: Seq<u8>,
    arches: Seq<(u64, u64)>,
    ps: Seq<PatchView>,
    i: int,
)
    requires
        forall|k: int| 0 <= k < ps.len() ==> held_by_arch(b, arches, arches.len() as int, #[trigger] ps[k]),
        0 <= i < b.len(),
        forall|j: int|
            0 <= j < arches.len() && arches[j].0 + arches[j].1 <= b.len() && !starts_with_ar(
                b.subrange(arches[j].0 as int, arches[j].0 + arches[j].1),
            ) ==> !(arches[j].0 <= i < #[trigger] (arches[j].0 + arches[j].1)),
    ensures
        apply_patches_spec(b, ps)[i] == b[i],
{
    assert forall|k: int| 0 <= k < ps.len() implies !in_patch(#[trigger] ps[k], i) by {
        assert(held_by_arch(b, arches, arches.len() as int, ps[k]));
        let j = choose|j: int| 0 <= j < arches.len() && #[trigger] arch_holds(b, arches[j], ps[k]);
        assert(!(arches[j].0 <= i < (arches[j].0 + arches[j].1)));
    }
    lemma_patch_keeps_other_bytes(b, ps, i);
}

} // verus!

verus! {

/// For a thin 64-bit file whose one command carries a path to rewrite, the
/// command sits right after the header, and the whole file's plan is one
/// patch when the new path leaves exactly one byte for the NUL, and one
/// skipped record when it fills the allocated length.
pub proof fn lemma_thin_file_allocated_length_boundary(
    b: Seq<u8>,
    reps: Seq<(Seq<u8>, Seq<u8>)>,
    d: Seq<u8>,
)
    requires
        kind_of(b) == MachKind::MachO64,
        macho64_commands_of(b) == Some(Some(seq![d])),
        laid_out(b, 32, seq![d]),
        command_rewrite(d, thin_little(b), reps) is Some,
    ensures
        ({
            let (off, old, new) = command_rewrite(d, thin_little(b), reps).unwrap();
            let alloc = d.len() - off;
            &&& d == b.subrange(32, 32 + d.len() as int)
            &&& new.len() == alloc - 1 ==> collect_spec(b, reps) == Some(
                (seq![(32 + off, alloc, new)], Seq::<SkipView>::empty()),
            )
            &&& new.len() == alloc ==> collect_spec(b, reps) == Some(
                (Seq::<PatchView>::empty(), seq![(old, new)]),
            )
        }),
{
    let cs = seq![d];
    assert(cs[0] == d);
    assert(cs.subrange(0, 0) =~= Seq::<Seq<u8>>::empty());
    assert(cs.drop_last() =~= Seq::<Seq<u8>>::empty());
    assert(cs.last() == d);
    let p0 = plan_commands(cs.drop_last(), thin_little(b), reps, 32);
    assert(p0 == (Seq::<PatchView>::empty(), Seq::<SkipView>::empty()));
    let c = command_plan(d, thin_little(b), reps, 32);
    assert(plan_commands(cs, thin_little(b), reps, 32) == (p0.0 + c.0, p0.1 + c.1));
    assert(p0.0 + c.0 =~= c.0);
    assert(p0.1 + c.1 =~= c.1);
    lemma_allocated_length_boundary(d, thin_little(b), reps, 32);
}

} // verus!
