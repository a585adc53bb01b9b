//! Probing of files built by hand.
use version_renamer::evidence::merge_architectures;
use version_renamer::evidence::ArchEvidence::{Arm64, Unrecognized, X64, X86};
use version_renamer::probe::{probe_reader, PackageCopy, ReaderProbe};
use version_renamer::scan::{
    scan_file, scan_slice, Scan, BLOCK_SIZE, INNO_TAG, NSIS_MAGIC, OLE_MAGIC,
};

/// Builds a minimal PE image: MZ at offset 0, `e_lfanew` 0x40, one
/// optional-header-sized COFF layout and the given section table.
fn pe_image(machine: u16, sections: &[(u32, u32)]) -> Vec<u8> {
    let mut out = vec![0x4D, 0x5A];
    out.resize(0x3C, 0);
    out.extend_from_slice(&0x40u32.to_le_bytes());
    assert_eq!(out.len(), 0x40);
    out.extend_from_slice(b"PE\0\0");
    out.extend_from_slice(&machine.to_le_bytes());
    out.extend_from_slice(&u16::try_from(sections.len()).unwrap_or(0).to_le_bytes());
    out.extend_from_slice(&[0; 4]); // time date stamp
    out.extend_from_slice(&[0; 8]); // symbol table pointer + count
    out.extend_from_slice(&0xF0u16.to_le_bytes()); // optional header size
    out.extend_from_slice(&[0; 2]); // characteristics
    out.extend_from_slice(&[0; 0xF0]); // optional header body
    for &(raw_size, raw_ptr) in sections {
        out.extend_from_slice(&[0; 8]); // name
        out.extend_from_slice(&0u32.to_le_bytes()); // virtual size
        out.extend_from_slice(&0u32.to_le_bytes()); // virtual address
        out.extend_from_slice(&raw_size.to_le_bytes());
        out.extend_from_slice(&raw_ptr.to_le_bytes());
        out.extend_from_slice(&[0; 16]); // rest of the 40-byte section header
    }
    out
}

#[test]
fn scans_installer_magics() {
    let mut data = vec![0u8; 64];
    data[16..32].copy_from_slice(&NSIS_MAGIC);
    let mut scan = Scan::default();
    scan_slice(&data, 0, &mut scan);
    assert!(scan.is_nsis);
    assert!(!scan.is_inno);

    let mut data = vec![0u8; 64];
    data[8..29].copy_from_slice(&INNO_TAG);
    let mut scan = Scan::default();
    scan_slice(&data, 0, &mut scan);
    assert!(scan.is_inno);
    assert!(!scan.is_nsis);
}

#[test]
fn collects_mz_only_with_plausible_lfanew() {
    let mut data = vec![0u8; 4096];
    data[0] = 0x4D;
    data[1] = 0x5A;
    data[60..64].copy_from_slice(&0x80u32.to_le_bytes()); // shell MZ at 0
    data[100] = 0x4D;
    data[101] = 0x5A;
    data[160..164].copy_from_slice(&0x80u32.to_le_bytes()); // plausible
    data[300] = 0x4D;
    data[301] = 0x5A;
    data[360..364].copy_from_slice(&5u32.to_le_bytes()); // below 0x40
    let mut scan = Scan::default();
    scan_slice(&data, 0, &mut scan);
    assert_eq!(scan.mz_candidates, vec![100]);
}

#[test]
fn probe_ignores_x86_embedded_images() {
    let mut data = vec![0u8; 0x200];
    data.extend(pe_image(0x014C, &[(0x8000, 0x400)])); // large x86 image
    data.extend_from_slice(&[0u8; 0x100]);
    assert!(matches!(
        probe_reader(&data, data.len() as u64, "x86", &[]),
        ReaderProbe::Inconclusive
    ));
}

#[test]
fn scan_is_block_size_independent() {
    let mut data = vec![0u8; 0x100];
    data.extend(pe_image(0x8664, &[(0x3000, 0x400)]));
    data.extend_from_slice(&[0u8; 0x800]);
    let small = scan_file(&data, 256);
    let large = scan_file(&data, BLOCK_SIZE);
    assert_eq!(small.mz_candidates, large.mz_candidates);
    assert_eq!(small.mz_candidates, vec![0x100]);
}

#[test]
fn probe_adopts_single_non_shell_arch() {
    let mut data = vec![0u8; 0x200];
    data.extend(pe_image(0x014C, &[(0x200, 0x400)])); // small x86 image
    data.extend(pe_image(0x8664, &[(0x1000, 0x400)])); // larger x64 image
    data.extend_from_slice(&[0u8; 0x100]);
    assert!(matches!(
        probe_reader(&data, data.len() as u64, "x86", &[]),
        ReaderProbe::Found(arch) if arch == "x64"
    ));
}

#[test]
fn probe_merges_x64_with_arm64() {
    let mut data = vec![0u8; 0x200];
    data.extend(pe_image(0x8664, &[(0x1000, 0x400)])); // x64 payload
    data.extend(pe_image(0xAA64, &[(0x1000, 0x400)])); // arm64 payload
    data.extend_from_slice(&[0u8; 0x100]);
    assert!(matches!(
        probe_reader(&data, data.len() as u64, "x86", &[]),
        ReaderProbe::Found(arch) if arch == "x64+arm64"
    ));
}

#[test]
fn probe_reports_unknown_for_arm32_evidence() {
    let mut data = vec![0u8; 0x200];
    data.extend(pe_image(0x8664, &[(0x1000, 0x400)])); // x64 payload
    data.extend(pe_image(0x01C4, &[(0x1000, 0x400)])); // arm32 payload
    data.extend_from_slice(&[0u8; 0x100]);
    assert!(matches!(
        probe_reader(&data, data.len() as u64, "x86", &[]),
        ReaderProbe::Unknown
    ));
}

#[test]
fn merges_evidence_sets() {
    assert_eq!(merge_architectures(&[X86]), Some("x86"));
    assert_eq!(merge_architectures(&[X64]), Some("x64"));
    assert_eq!(merge_architectures(&[Arm64]), Some("arm64"));
    assert_eq!(merge_architectures(&[X86, X64]), Some("x86"));
    assert_eq!(merge_architectures(&[X86, Arm64]), Some("x86+arm64"));
    assert_eq!(merge_architectures(&[X64, Arm64]), Some("x64+arm64"));
    assert_eq!(merge_architectures(&[X86, X64, Arm64]), Some("x86+arm64"));
    assert_eq!(merge_architectures(&[]), None);
    assert_eq!(merge_architectures(&[X86, Unrecognized]), None);
    assert_eq!(merge_architectures(&[Arm64, Unrecognized]), None);
}

#[test]
fn probe_falls_back_for_inno() {
    let mut data = vec![0u8; 64];
    data[8..29].copy_from_slice(&INNO_TAG);
    assert!(matches!(
        probe_reader(&data, data.len() as u64, "x86", &[]),
        ReaderProbe::Inconclusive
    ));
}

#[test]
fn probe_flags_nsis_for_external_unpack() {
    let mut data = vec![0u8; 64];
    data[10..26].copy_from_slice(&NSIS_MAGIC);
    assert!(matches!(
        probe_reader(&data, data.len() as u64, "x86", &[]),
        ReaderProbe::NsisDetected
    ));
}

#[test]
fn probe_is_inconclusive_without_traits() {
    let data = vec![0x90u8; 512];
    assert!(matches!(
        probe_reader(&data, data.len() as u64, "x86", &[]),
        ReaderProbe::Inconclusive
    ));
}

#[test]
fn bogus_embedded_msi_falls_through() {
    let mut data = vec![0u8; 2048];
    data[64..72].copy_from_slice(&OLE_MAGIC);
    let copies = [PackageCopy { copied: 1984, template: None }];
    assert!(matches!(
        probe_reader(&data, data.len() as u64, "x86", &copies),
        ReaderProbe::Inconclusive
    ));
}
