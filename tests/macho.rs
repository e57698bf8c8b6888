use sps_core::macho::{
    apply_patches, collect_macho_patches, find_patches_in_commands, patch_macho_buffer,
    patch_path_in_buffer, PatchInfo,
};
use sps_core::placeholder::{contains_bytes, find_and_replace_placeholders, replace_bytes};

const LC_RPATH: u32 = 0x8000_001c;
const LC_LOAD_DYLIB: u32 = 0xc;

fn le(v: u32) -> [u8; 4] {
    v.to_le_bytes()
}

fn path_cmd(cmd: u32, path: &str, cmdsize: u32, offset: u32) -> Vec<u8> {
    let mut c = Vec::new();
    c.extend_from_slice(&le(cmd));
    c.extend_from_slice(&le(cmdsize));
    c.extend_from_slice(&le(offset));
    while c.len() < offset as usize {
        c.push(0);
    }
    c.extend_from_slice(path.as_bytes());
    while c.len() < cmdsize as usize {
        c.push(0);
    }
    c
}

fn filler_cmd(size: u32) -> Vec<u8> {
    let mut c = Vec::new();
    c.extend_from_slice(&le(0x99));
    c.extend_from_slice(&le(size));
    while c.len() < size as usize {
        c.push(0);
    }
    c
}

fn thin64(cmds: &[Vec<u8>]) -> Vec<u8> {
    let total: usize = cmds.iter().map(|c| c.len()).sum();
    let mut b = Vec::new();
    b.extend_from_slice(&[0xcf, 0xfa, 0xed, 0xfe]);
    b.extend_from_slice(&le(0x0100_000c));
    b.extend_from_slice(&le(0));
    b.extend_from_slice(&le(2));
    b.extend_from_slice(&le(cmds.len() as u32));
    b.extend_from_slice(&le(total as u32));
    b.extend_from_slice(&le(0));
    b.extend_from_slice(&le(0));
    for c in cmds {
        b.extend_from_slice(c);
    }
    b.extend_from_slice(&[0u8; 64]);
    b
}

fn reps(pairs: &[(&str, &str)]) -> Vec<(Vec<u8>, Vec<u8>)> {
    pairs.iter().map(|(a, b)| (a.as_bytes().to_vec(), b.as_bytes().to_vec())).collect()
}

fn prefix_reps() -> Vec<(Vec<u8>, Vec<u8>)> {
    reps(&[("@@HOMEBREW_PREFIX@@", "/usr/local")])
}

#[test]
fn rpath_is_patched_in_place() {
    let input = thin64(&[filler_cmd(0x400), path_cmd(LC_RPATH, "@@HOMEBREW_PREFIX@@/lib", 40, 12)]);
    let (out, skipped) = patch_macho_buffer(input.clone(), &prefix_reps()).unwrap();
    let out = out.expect("a patch was applied");
    assert!(skipped.is_empty());
    assert_eq!(out.len(), input.len());
    assert_eq!(&out[0x420 + 12..0x420 + 26], b"/usr/local/lib");
    assert!(out[0x420 + 26..0x420 + 40].iter().all(|&b| b == 0));
    assert_eq!(&out[..0x420 + 12], &input[..0x420 + 12]);
    assert_eq!(&out[0x420 + 40..], &input[0x420 + 40..]);
}

#[test]
fn too_long_replacement_is_skipped() {
    let input = thin64(&[filler_cmd(0x400), path_cmd(LC_RPATH, "@@HOMEBREW_PREFIX@@/lib", 40, 12)]);
    let long = reps(&[("@@HOMEBREW_PREFIX@@", "/opt/a/much/longer/prefix")]);
    let (out, skipped) = patch_macho_buffer(input, &long).unwrap();
    assert!(out.is_none());
    assert_eq!(skipped.len(), 1);
    assert_eq!(skipped[0].old_path, b"@@HOMEBREW_PREFIX@@/lib".to_vec());
    assert_eq!(skipped[0].new_path, b"/opt/a/much/longer/prefix/lib".to_vec());
}

#[test]
fn replacement_filling_all_but_nul_is_patched() {
    // allocated = 40 - 12 = 28; the new path has 27 bytes
    let input = thin64(&[path_cmd(LC_RPATH, "@P@", 40, 12)]);
    let r = reps(&[("@P@", "/abcdefghijklmnopqrstuvwxyz")]);
    let (out, skipped) = patch_macho_buffer(input.clone(), &r).unwrap();
    assert!(skipped.is_empty());
    let out = out.unwrap();
    assert_eq!(&out[32 + 12..32 + 39], b"/abcdefghijklmnopqrstuvwxyz");
    assert_eq!(out[32 + 39], 0);
    assert_eq!(out.len(), input.len());
}

#[test]
fn replacement_filling_all_allocated_bytes_is_skipped() {
    let input = thin64(&[path_cmd(LC_RPATH, "@P@", 40, 12)]);
    let r = reps(&[("@P@", "/abcdefghijklmnopqrstuvwxyz0")]);
    let (out, skipped) = patch_macho_buffer(input, &r).unwrap();
    assert!(out.is_none());
    assert_eq!(skipped.len(), 1);
}

#[test]
fn second_run_finds_nothing_to_patch() {
    let input = thin64(&[path_cmd(LC_LOAD_DYLIB, "@@HOMEBREW_PREFIX@@/lib/libz.dylib", 64, 24)]);
    let (out, _) = patch_macho_buffer(input, &prefix_reps()).unwrap();
    let once = out.unwrap();
    let (again, skipped) = patch_macho_buffer(once.clone(), &prefix_reps()).unwrap();
    assert!(again.is_none());
    assert!(skipped.is_empty());
    let (patches, _) = collect_macho_patches(&once, &prefix_reps()).unwrap();
    assert!(patches.is_empty());
}

#[test]
fn dylib_command_offsets_are_absolute() {
    let input = thin64(&[
        filler_cmd(16),
        path_cmd(LC_LOAD_DYLIB, "@@HOMEBREW_PREFIX@@/lib/libz.dylib", 64, 24),
    ]);
    let (patches, skipped) = collect_macho_patches(&input, &prefix_reps()).unwrap();
    assert!(skipped.is_empty());
    assert_eq!(patches.len(), 1);
    assert_eq!(patches[0].absolute_offset, 32 + 16 + 24);
    assert_eq!(patches[0].allocated_len, 40);
    assert_eq!(patches[0].new_path, b"/usr/local/lib/libz.dylib".to_vec());
}

#[test]
fn non_object_files_are_left_alone() {
    let (out, skipped) = patch_macho_buffer(Vec::new(), &prefix_reps()).unwrap();
    assert!(out.is_none() && skipped.is_empty());
    let text = b"#!/bin/sh\necho @@HOMEBREW_PREFIX@@\n".to_vec();
    let (out, skipped) = patch_macho_buffer(text, &prefix_reps()).unwrap();
    assert!(out.is_none() && skipped.is_empty());
    let mut ar = b"!<arch>\n".to_vec();
    ar.extend_from_slice(&[0u8; 64]);
    let (out, _) = patch_macho_buffer(ar, &prefix_reps()).unwrap();
    assert!(out.is_none());
}

#[test]
fn truncated_macho_is_an_error() {
    let mut b = thin64(&[path_cmd(LC_RPATH, "@@HOMEBREW_PREFIX@@/lib", 40, 12)]);
    // claim far more command bytes than the file has
    b[20..24].copy_from_slice(&le(0x10000));
    assert!(collect_macho_patches(&b, &prefix_reps()).is_err());
}

fn be(v: u32) -> [u8; 4] {
    v.to_be_bytes()
}

#[test]
fn fat_with_archive_slice_patches_only_the_macho() {
    let thin = thin64(&[path_cmd(LC_RPATH, "@@HOMEBREW_PREFIX@@/lib", 40, 12)]);
    let mut ar = b"!<arch>\n".to_vec();
    ar.extend_from_slice(b"@@HOMEBREW_PREFIX@@/lib");
    ar.extend_from_slice(&[0u8; 41]);
    let mut fat = Vec::new();
    fat.extend_from_slice(&be(0xcafe_babe));
    fat.extend_from_slice(&be(2));
    for (off, len) in [(0x100u32, thin.len() as u32), (0x400u32, ar.len() as u32)] {
        fat.extend_from_slice(&be(0x0100_000c));
        fat.extend_from_slice(&be(0));
        fat.extend_from_slice(&be(off));
        fat.extend_from_slice(&be(len));
        fat.extend_from_slice(&be(0));
    }
    fat.resize(0x100, 0);
    fat.extend_from_slice(&thin);
    fat.resize(0x400, 0);
    fat.extend_from_slice(&ar);
    let (patches, _) = collect_macho_patches(&fat, &prefix_reps()).unwrap();
    assert_eq!(patches.len(), 1);
    assert_eq!(patches[0].absolute_offset, 0x100 + 32 + 12);
    let (out, _) = patch_macho_buffer(fat.clone(), &prefix_reps()).unwrap();
    let out = out.unwrap();
    assert_eq!(out.len(), fat.len());
    assert_eq!(&out[0x400..], &fat[0x400..]);
    assert_eq!(&out[0x100 + 44..0x100 + 58], b"/usr/local/lib");
}

#[test]
fn patch_writes_string_then_zeros() {
    let mut buf = vec![0xaau8; 16];
    patch_path_in_buffer(&mut buf, 4, 8, b"abc");
    assert_eq!(buf, vec![0xaa, 0xaa, 0xaa, 0xaa, b'a', b'b', b'c', 0, 0, 0, 0, 0, 0xaa, 0xaa, 0xaa, 0xaa]);
}

#[test]
fn patch_out_of_bounds_or_too_long_is_ignored() {
    let mut buf = vec![7u8; 8];
    patch_path_in_buffer(&mut buf, 6, 4, b"a");
    assert_eq!(buf, vec![7u8; 8]);
    patch_path_in_buffer(&mut buf, 0, 3, b"abc");
    assert_eq!(buf, vec![7u8; 8]);
}

#[test]
fn applying_patches_keeps_length_and_other_bytes() {
    let mut buf: Vec<u8> = (0u8..32).collect();
    let patches = vec![
        PatchInfo { absolute_offset: 2, allocated_len: 6, new_path: b"xy".to_vec() },
        PatchInfo { absolute_offset: 20, allocated_len: 4, new_path: b"z".to_vec() },
    ];
    apply_patches(&mut buf, &patches);
    assert_eq!(buf.len(), 32);
    assert_eq!(&buf[2..8], &[b'x', b'y', 0, 0, 0, 0]);
    assert_eq!(&buf[20..24], &[b'z', 0, 0, 0]);
    for i in (0..2).chain(8..20).chain(24..32) {
        assert_eq!(buf[i], i as u8);
    }
}

#[test]
fn commands_without_placeholders_give_no_plan() {
    let cmds = vec![path_cmd(LC_RPATH, "/usr/lib", 24, 12)];
    let (p, s) = find_patches_in_commands(&cmds, true, 0, 32, &prefix_reps());
    assert!(p.is_empty() && s.is_empty());
}

#[test]
fn non_utf8_paths_are_not_rewritten() {
    let mut c = path_cmd(LC_RPATH, "@@HOMEBREW_PREFIX@@/lib", 40, 12);
    c[14] = 0xff;
    let (p, s) = find_patches_in_commands(&vec![c], true, 0, 32, &prefix_reps());
    assert!(p.is_empty() && s.is_empty());
}

#[test]
fn placeholders_are_replaced_everywhere_in_order() {
    let r = reps(&[("@A@", "x"), ("@B@", "@A@")]);
    assert_eq!(find_and_replace_placeholders(b"@A@/@B@/@A@", &r), Some(b"x/@A@/x".to_vec()));
    assert_eq!(find_and_replace_placeholders(b"/usr/lib", &r), None);
    assert_eq!(replace_bytes(b"aaaa", b"aa", b"b"), b"bb".to_vec());
    assert!(contains_bytes(b"hello", b"ll"));
    assert!(!contains_bytes(b"hello", b"lo!"));
}

#[test]
fn empty_placeholder_matches_every_boundary() {
    let r = reps(&[("", "-")]);
    assert_eq!(find_and_replace_placeholders(b"ab", &r), Some(b"-a-b-".to_vec()));
    assert_eq!(find_and_replace_placeholders(b"", &r), Some(b"-".to_vec()));
    // a two-byte character gets no insertion inside it
    assert_eq!(find_and_replace_placeholders("é".as_bytes(), &r), Some("-é-".as_bytes().to_vec()));
    assert_eq!(replace_bytes(b"xy", b"", b"."), "xy".replace("", ".").into_bytes());
}

fn thin64_be(path: &str, cmdsize: u32, offset: u32) -> Vec<u8> {
    let mut c = Vec::new();
    c.extend_from_slice(&LC_RPATH.to_be_bytes());
    c.extend_from_slice(&cmdsize.to_be_bytes());
    c.extend_from_slice(&offset.to_be_bytes());
    c.extend_from_slice(path.as_bytes());
    c.resize(cmdsize as usize, 0);
    let mut b = Vec::new();
    b.extend_from_slice(&[0xfe, 0xed, 0xfa, 0xcf]);
    for v in [0x0100_0012u32, 0, 2, 1, cmdsize, 0, 0] {
        b.extend_from_slice(&v.to_be_bytes());
    }
    b.extend_from_slice(&c);
    b.extend_from_slice(&[0u8; 64]);
    b
}

#[test]
fn fat_big_endian_slice_is_patched() {
    let thin = thin64_be("@@HOMEBREW_PREFIX@@/lib", 40, 12);
    let mut fat = Vec::new();
    fat.extend_from_slice(&be(0xcafe_babe));
    fat.extend_from_slice(&be(1));
    for v in [0x0100_0012u32, 0, 0x100, thin.len() as u32, 0] {
        fat.extend_from_slice(&be(v));
    }
    fat.resize(0x100, 0);
    fat.extend_from_slice(&thin);
    let (patches, _) = collect_macho_patches(&fat, &prefix_reps()).unwrap();
    assert_eq!(patches.len(), 1);
    assert_eq!(patches[0].absolute_offset, 0x100 + 32 + 12);
    assert_eq!(patches[0].allocated_len, 28);
}

#[test]
fn invalid_fat_header_is_an_error() {
    let mut fat = Vec::new();
    fat.extend_from_slice(&be(0xcafe_babe));
    fat.extend_from_slice(&be(1000));
    fat.resize(64, 0);
    assert!(collect_macho_patches(&fat, &prefix_reps()).is_err());
}

#[test]
fn overlapping_fat_slices_are_refused() {
    let thin = thin64(&[path_cmd(LC_RPATH, "@@HOMEBREW_PREFIX@@/lib", 40, 12)]);
    let mut fat = Vec::new();
    fat.extend_from_slice(&be(0xcafe_babe));
    fat.extend_from_slice(&be(2));
    for off in [0x100u32, 0x110u32] {
        for v in [0x0100_000cu32, 0, off, thin.len() as u32, 0] {
            fat.extend_from_slice(&be(v));
        }
    }
    fat.resize(0x100, 0);
    fat.extend_from_slice(&thin);
    fat.extend_from_slice(&[0u8; 32]);
    assert!(collect_macho_patches(&fat, &prefix_reps()).is_err());
}
