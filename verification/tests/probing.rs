//! The steps of a probe, one by one.
use version_renamer::bytes::{has_at, u16_le, u32_le};
use version_renamer::evidence::{
    arch_evidence, image_evidence, machine_name, merge_architectures, msi_template_evidence, note,
    note_all, verdict_from_evidence, ArchEvidence, PayloadVerdict,
};
use version_renamer::path::extension;
use version_renamer::probe::{
    after_images, after_packages, embedded_images_verdict, embedded_msi_verdict, find_7z,
    largest_container, msi_evidence, note_image, package_ranges, payload_kind, payload_verdict,
    probe, probe_reader, read_image_header, temp_name, ContentProbe, PackageCopy, PayloadKind,
    ProbeStep, ReaderProbe, TempNames, UnpackedEntry, UnpackedFile, SEVEN_ZIP_PATH, SEVEN_ZIP_PATH_X86,
};
use version_renamer::reading::{Fill, ReadEvent};
use version_renamer::scan::{
    ordered_set, scan_file, Scan, ScanState, BLOCK_SIZE, INNO_TAG, MAX_CANDIDATES,
    MAX_SCAN_BYTES, NSIS_MAGIC, OLE_MAGIC, OVERLAP,
};

fn image(machine: u16, sections: u16) -> Vec<u8> {
    let mut out = vec![0u8; 0x40 + 24 + 0xF0 + 40 * sections as usize];
    out[0] = 0x4D;
    out[1] = 0x5A;
    out[0x3C] = 0x40;
    out[0x40..0x44].copy_from_slice(b"PE\0\0");
    out[0x44..0x46].copy_from_slice(&machine.to_le_bytes());
    out[0x46..0x48].copy_from_slice(&sections.to_le_bytes());
    out[0x54..0x56].copy_from_slice(&0xF0u16.to_le_bytes());
    out
}

fn same(a: &Scan, b: &Scan) {
    assert_eq!(a.mz_candidates, b.mz_candidates);
    assert_eq!(a.ole_candidates, b.ole_candidates);
    assert_eq!(a.is_nsis, b.is_nsis);
    assert_eq!(a.is_inno, b.is_inno);
}

/// Scans in pieces of the given size, with interruptions in between.
fn scan_in_pieces(data: &[u8], block: usize, piece: usize, fails: bool) -> Scan {
    let mut state = ScanState::new(block);
    let mut at = 0;
    loop {
        let wanted = state.wanted();
        if wanted == 0 {
            return state.finish();
        }
        state.on_read(ReadEvent::Interrupted);
        let n = wanted.min(piece).min(data.len() - at);
        if n == 0 && fails {
            state.on_read(ReadEvent::Failed);
        } else {
            state.on_read(ReadEvent::Data(&data[at..at + n]));
        }
        at += n;
    }
}

#[test]
fn numbers_are_little_endian() {
    let buf = [1u8, 2, 3, 4, 5];
    assert_eq!(u16_le(&buf, 1), Some(0x0302));
    assert_eq!(u32_le(&buf, 1), Some(0x0504_0302));
    assert_eq!(u16_le(&buf, 4), None);
    assert_eq!(u32_le(&buf, 2), None);
    assert_eq!(u32_le(&buf, 9), None);
    assert!(has_at(&buf, 3, &[4, 5]));
    assert!(!has_at(&buf, 4, &[5, 6]));
}

#[test]
fn images_are_told_by_their_headers() {
    assert_eq!(read_image_header(&image(0x8664, 1)), Some(0x8664));
    assert_eq!(read_image_header(&image(0x8664, 96)), Some(0x8664));
    assert_eq!(read_image_header(&image(0x8664, 97)), None);
    assert_eq!(read_image_header(&image(0x8664, 0)), None);
    assert_eq!(read_image_header(&[]), None);
    let short = image(0x8664, 1);
    assert_eq!(read_image_header(&short[..short.len() - 1]), None);
    let mut wrong = image(0x8664, 1);
    wrong[0x40] = b'N';
    assert_eq!(read_image_header(&wrong), None);
    let mut far = image(0x8664, 1);
    far[0x3F] = 0xFF;
    assert_eq!(read_image_header(&far), None);
}

#[test]
fn machines_have_names() {
    assert_eq!(machine_name(0x014C), Some("x86"));
    assert_eq!(machine_name(0x8664), Some("x64"));
    assert_eq!(machine_name(0xAA64), Some("arm64"));
    assert_eq!(machine_name(0x01C4), None);
    assert_eq!(image_evidence(0x014C, "x86"), None);
    assert_eq!(image_evidence(0x014C, "x64"), Some(ArchEvidence::X86));
    assert_eq!(image_evidence(0xAA64, "x86"), Some(ArchEvidence::Arm64));
    assert_eq!(image_evidence(0x01C4, "x86"), Some(ArchEvidence::Unrecognized));
}

#[test]
fn tokens_are_evidence() {
    assert_eq!(arch_evidence("x86"), Some(ArchEvidence::X86));
    assert_eq!(arch_evidence("x64"), Some(ArchEvidence::X64));
    assert_eq!(arch_evidence("arm64"), Some(ArchEvidence::Arm64));
    assert_eq!(arch_evidence("arm"), Some(ArchEvidence::Unrecognized));
    assert_eq!(arch_evidence("unknown"), None);
}

#[test]
fn templates_are_evidence_in_either_case() {
    assert_eq!(
        msi_template_evidence(" INTEL ; amd64;ARM;Arm64;1033"),
        vec![
            ArchEvidence::X86,
            ArchEvidence::X64,
            ArchEvidence::Unrecognized,
            ArchEvidence::Arm64,
        ]
    );
    assert_eq!(msi_template_evidence("intel64;x64;x86").len(), 3);
    assert_eq!(msi_evidence(&None), vec![]);
    assert_eq!(msi_evidence(&Some("x64;0".to_owned())), vec![ArchEvidence::X64]);
}

#[test]
fn evidence_is_noted_once_and_in_any_order() {
    let mut evidence = Vec::new();
    note(&mut evidence, ArchEvidence::X64);
    note(&mut evidence, ArchEvidence::X64);
    note_all(&mut evidence, &[ArchEvidence::Arm64, ArchEvidence::X64]);
    assert_eq!(evidence, vec![ArchEvidence::X64, ArchEvidence::Arm64]);
    let forward = merge_architectures(&evidence);
    evidence.reverse();
    assert_eq!(merge_architectures(&evidence), forward);
}

#[test]
fn evidence_gives_a_verdict() {
    assert!(verdict_from_evidence(&[]).is_none());
    assert!(matches!(
        verdict_from_evidence(&[ArchEvidence::X64]),
        Some(PayloadVerdict::Arch(a)) if a == "x64"
    ));
    assert!(matches!(
        verdict_from_evidence(&[ArchEvidence::X64, ArchEvidence::Unrecognized]),
        Some(PayloadVerdict::Unknown)
    ));
}

#[test]
fn images_of_the_shell_add_nothing() {
    let mut evidence = Vec::new();
    note_image(&mut evidence, &image(0x014C, 1), "x86");
    note_image(&mut evidence, b"nothing", "x86");
    assert_eq!(evidence, vec![]);
    note_image(&mut evidence, &image(0x8664, 1), "x86");
    assert_eq!(evidence, vec![ArchEvidence::X64]);
    let data = image(0x014C, 1);
    assert!(embedded_images_verdict(&data, &[0], "x86").is_none());
    assert!(matches!(
        embedded_images_verdict(&data, &[0], "arm64"),
        Some(PayloadVerdict::Arch(a)) if a == "x86"
    ));
    assert!(embedded_images_verdict(&data, &[1 << 40], "arm64").is_none());
}

#[test]
fn packages_have_a_least_size_and_a_greatest_number() {
    assert_eq!(package_ranges(&[64, 2000], 2048), vec![(64, 1984)]);
    assert_eq!(package_ranges(&[1536, 1537], 2048), vec![(1536, 512)]);
    assert_eq!(package_ranges(&[5000], 2048), vec![]);
    let large = (2u64 << 30) + 100;
    assert_eq!(package_ranges(&[99, 100], large), vec![(100, 2 << 30)]);
    let many: Vec<u64> = (0..20).collect();
    assert_eq!(package_ranges(&many, 4096).len(), 8);
}

#[test]
fn packages_that_were_not_copied_do_not_count() {
    let copy = |copied: u64, template: &str| PackageCopy {
        copied,
        template: Some(template.to_owned()),
    };
    let ranges = [(0, 600), (8, 592)];
    assert!(matches!(
        embedded_msi_verdict(&ranges, &[copy(600, "x64"), copy(592, "Arm64")]),
        Some(PayloadVerdict::Arch(a)) if a == "x64+arm64"
    ));
    assert!(matches!(
        embedded_msi_verdict(&ranges, &[copy(0, "x64"), copy(592, "Arm64")]),
        Some(PayloadVerdict::Arch(a)) if a == "arm64"
    ));
    assert!(embedded_msi_verdict(&ranges, &[]).is_none());
    assert!(matches!(
        after_packages(&ranges, &[copy(600, "Arm")]),
        ReaderProbe::Unknown
    ));
    assert!(matches!(after_packages(&ranges, &[]), ReaderProbe::Inconclusive));
}

#[test]
fn an_embedded_package_decides() {
    let mut data = vec![0u8; 2048];
    data[64..72].copy_from_slice(&OLE_MAGIC);
    let copies = [PackageCopy { copied: 1984, template: Some("Intel;1033".to_owned()) }];
    assert!(matches!(
        probe_reader(&data, 2048, "x86", &copies),
        ReaderProbe::Found(a) if a == "x86"
    ));
    data[200..216].copy_from_slice(&NSIS_MAGIC);
    assert!(matches!(probe_reader(&data, 2048, "x86", &copies), ReaderProbe::NsisDetected));
    data[200] = 0;
    data[300..321].copy_from_slice(&INNO_TAG);
    assert!(matches!(probe_reader(&data, 2048, "x86", &copies), ReaderProbe::Inconclusive));
}

#[test]
fn images_come_before_installer_marks() {
    let mut scan = Scan::default();
    scan.is_nsis = true;
    let arm = || Some(PayloadVerdict::Arch("arm64".to_owned()));
    assert!(matches!(
        after_images(arm(), &scan, 0),
        ProbeStep::Done(ReaderProbe::Found(a)) if a == "arm64"
    ));
    assert!(matches!(
        after_images(Some(PayloadVerdict::Unknown), &scan, 0),
        ProbeStep::Done(ReaderProbe::Unknown)
    ));
    assert!(matches!(
        after_images(None, &scan, 0),
        ProbeStep::Done(ReaderProbe::NsisDetected)
    ));
    scan.is_nsis = false;
    scan.ole_candidates = vec![8];
    assert!(matches!(
        after_images(Some(PayloadVerdict::NoEvidence), &scan, 1000),
        ProbeStep::Packages(r) if r == vec![(8, 992)]
    ));
}

#[test]
fn a_probe_is_concluded() {
    let none = || PayloadVerdict::NoEvidence;
    assert!(matches!(probe(None, none()), ContentProbe::Inconclusive));
    assert!(matches!(
        probe(Some(ReaderProbe::Found("x64".to_owned())), none()),
        ContentProbe::Found(a) if a == "x64"
    ));
    assert!(matches!(probe(Some(ReaderProbe::Unknown), none()), ContentProbe::Unknown));
    assert!(matches!(
        probe(Some(ReaderProbe::Inconclusive), PayloadVerdict::Unknown),
        ContentProbe::Inconclusive
    ));
    let nsis = || Some(ReaderProbe::NsisDetected);
    assert!(matches!(probe(nsis(), none()), ContentProbe::Inconclusive));
    assert!(matches!(probe(nsis(), PayloadVerdict::Unknown), ContentProbe::Unknown));
    assert!(matches!(
        probe(nsis(), PayloadVerdict::Arch("x64".to_owned())),
        ContentProbe::Found(a) if a == "x64"
    ));
}

#[test]
fn unpacked_files_give_a_verdict() {
    let exe = |arch: &str| UnpackedFile::Executable(arch.to_owned());
    let msi = |template: &str| UnpackedFile::Package(Some(template.to_owned()));
    assert!(matches!(
        payload_verdict(&[exe("x86"), exe("x64"), UnpackedFile::Other], "x86"),
        PayloadVerdict::Arch(a) if a == "x64"
    ));
    assert!(matches!(
        payload_verdict(&[exe("x86"), exe("unknown"), UnpackedFile::Package(None)], "x86"),
        PayloadVerdict::NoEvidence
    ));
    assert!(matches!(
        payload_verdict(&[msi("Intel"), exe("arm64")], "x86"),
        PayloadVerdict::Arch(a) if a == "x86+arm64"
    ));
    assert!(matches!(
        payload_verdict(&[exe("x64"), exe("arm")], "x86"),
        PayloadVerdict::Unknown
    ));
}

#[test]
fn the_order_of_unpacked_files_makes_no_difference() {
    let files = |order: [usize; 4]| -> Vec<UnpackedFile> {
        order
            .iter()
            .map(|i| match i {
                0 => UnpackedFile::Executable("x64".to_owned()),
                1 => UnpackedFile::Package(Some("Arm64;1033".to_owned())),
                2 => UnpackedFile::Executable("x86".to_owned()),
                _ => UnpackedFile::Other,
            })
            .collect()
    };
    for order in [[0, 1, 2, 3], [3, 2, 1, 0], [1, 1, 2, 0], [2, 0, 1, 0]] {
        assert!(matches!(
            payload_verdict(&files(order), "x86"),
            PayloadVerdict::Arch(a) if a == "x64+arm64"
        ));
    }
}

#[test]
fn unpacked_files_are_told_by_extension() {
    let some = |e: &str| Some(e.to_owned());
    assert!(matches!(payload_kind(&some("EXE")), PayloadKind::Executable));
    assert!(matches!(payload_kind(&some("Msi")), PayloadKind::Package));
    assert!(matches!(payload_kind(&some("dll")), PayloadKind::Other));
    assert!(matches!(payload_kind(&None), PayloadKind::Other));
}

#[test]
fn the_last_of_the_largest_containers_is_taken() {
    let entry = |e: &str, len: u64| UnpackedEntry { extension: Some(e.to_owned()), len };
    let plain = UnpackedEntry { extension: None, len: 99 };
    assert_eq!(
        largest_container(&[entry("7Z", 5), entry("zip", 9), entry("7z", 9), entry("exe", 50), plain]),
        Some(2)
    );
    assert_eq!(largest_container(&[entry("exe", 1)]), None);
    assert_eq!(largest_container(&[]), None);
    assert_eq!(largest_container(&[entry("zip", 0)]), Some(0));
}

#[test]
fn the_first_place_of_7_zip_is_taken() {
    assert_eq!(find_7z(true, true), SEVEN_ZIP_PATH);
    assert_eq!(find_7z(false, true), SEVEN_ZIP_PATH_X86);
    assert_eq!(find_7z(false, false), "7z");
    assert_eq!(SEVEN_ZIP_PATH, "C:\\Program Files\\7-Zip\\7z.exe");
    assert_eq!(SEVEN_ZIP_PATH_X86, "C:\\Program Files (x86)\\7-Zip\\7z.exe");
}

#[test]
fn temporary_names_differ() {
    assert_eq!(temp_name("msi", 12, 345, 6), "version_renamer-6-msi-12-345.msi");
    assert_ne!(temp_name("msi", 1, 2345, 0), temp_name("msi", 12, 345, 0));
    assert_ne!(temp_name("msi", 1, 2, 1), temp_name("msi", 1, 2, 11));
    assert_ne!(temp_name("1-msi", 1, 2, 1), temp_name("msi", 1, 2, 11));
}

#[test]
fn no_temporary_name_is_given_out_twice() {
    let mut names = TempNames::new();
    let mut given: Vec<String> = Vec::new();
    for i in 0..50 {
        let kind = if i % 2 == 0 { "msi" } else { "nsis" };
        assert!(!names.exhausted());
        let name = names.next(kind, 7, 0);
        assert_eq!(name, temp_name(kind, 7, 0, i));
        assert_eq!(extension(&name), format!(".{kind}"));
        assert!(!given.contains(&name));
        given.push(name);
    }
}

#[test]
fn pieces_make_no_difference() {
    let mut data = vec![0x90u8; 3000];
    let part = image(0x8664, 1);
    data[250..250 + part.len()].copy_from_slice(&part);
    data[1016..1024].copy_from_slice(&OLE_MAGIC);
    data[2040..2061].copy_from_slice(&INNO_TAG);
    data[510..526].copy_from_slice(&NSIS_MAGIC);
    let whole = scan_file(&data, BLOCK_SIZE);
    assert_eq!(whole.mz_candidates, vec![250]);
    assert_eq!(whole.ole_candidates, vec![1016]);
    assert!(whole.is_inno && whole.is_nsis);
    for block in [OVERLAP, 200, 256, 1024, 3000] {
        same(&scan_file(&data, block), &whole);
        for piece in [1, 7, 128, 5000] {
            same(&scan_in_pieces(&data, block, piece, false), &whole);
            same(&scan_in_pieces(&data, block, piece, true), &whole);
        }
    }
}

#[test]
fn marks_across_blocks_are_found() {
    for at in 230..270 {
        let mut data = vec![0u8; 600];
        data[at..at + 16].copy_from_slice(&NSIS_MAGIC);
        assert!(scan_file(&data, 128).is_nsis);
        let mut data = vec![0u8; 600];
        data[at..at + 21].copy_from_slice(&INNO_TAG);
        assert!(scan_file(&data, 128).is_inno);
    }
}

#[test]
fn the_number_of_candidates_is_limited() {
    let mut data = Vec::new();
    for _ in 0..MAX_CANDIDATES + 10 {
        data.extend_from_slice(&OLE_MAGIC);
    }
    let scan = scan_file(&data, BLOCK_SIZE);
    assert_eq!(scan.ole_candidates.len(), MAX_CANDIDATES);
    assert_eq!(scan.ole_candidates[MAX_CANDIDATES - 1], 8 * (MAX_CANDIDATES as u64 - 1));
}

#[test]
fn half_the_cap_is_kept_in_any_blocks() {
    let mut data = vec![0u8; OVERLAP];
    for _ in 0..MAX_CANDIDATES / 2 {
        data.extend_from_slice(&OLE_MAGIC);
    }
    let whole = scan_file(&data, BLOCK_SIZE);
    assert_eq!(whole.ole_candidates.len(), MAX_CANDIDATES / 2);
    same(&scan_file(&data, OVERLAP), &whole);
    same(&scan_file(&data, 200), &whole);
    // Two more, each met twice in the smallest blocks, are over the cap.
    data.extend_from_slice(&OLE_MAGIC);
    data.extend_from_slice(&OLE_MAGIC);
    data.extend_from_slice(&[0; OVERLAP]);
    let whole = scan_file(&data, BLOCK_SIZE);
    assert!(scan_file(&data, OVERLAP).ole_candidates.len() < whole.ole_candidates.len());
}

#[test]
fn an_endless_file_is_not_read_to_the_end() {
    let block = 64 << 20;
    let mut state = ScanState::new(block);
    let piece = vec![0u8; block + OVERLAP];
    let mut taken = 0u64;
    loop {
        let wanted = state.wanted();
        if wanted == 0 {
            break;
        }
        state.on_read(ReadEvent::Data(&piece[..wanted]));
        taken += wanted as u64;
    }
    assert_eq!(taken, MAX_SCAN_BYTES + (block + OVERLAP) as u64);
    assert_eq!(state.finish().mz_candidates, Vec::<u64>::new());
}

#[test]
fn candidates_are_sorted_and_occur_once() {
    assert_eq!(ordered_set(&vec![5, 3, 5, 1, 3]), vec![1, 3, 5]);
    assert_eq!(ordered_set(&vec![]), Vec::<u64>::new());
}

#[test]
fn a_buffer_is_filled_up_to_its_limit() {
    let mut fill = Fill::new(5);
    assert_eq!(fill.wanted(), 5);
    fill.on_read(ReadEvent::Data(&[1, 2, 3]));
    fill.on_read(ReadEvent::Interrupted);
    assert_eq!(fill.wanted(), 2);
    fill.on_read(ReadEvent::Data(&[4, 5]));
    assert_eq!(fill.wanted(), 0);
    assert!(!fill.ended);
    assert_eq!(fill.buf, vec![1, 2, 3, 4, 5]);
    let mut fill = Fill::new(5);
    fill.on_read(ReadEvent::Data(&[1]));
    fill.on_read(ReadEvent::Failed);
    assert_eq!(fill.wanted(), 0);
    assert!(fill.ended);
}
