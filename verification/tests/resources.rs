//! Version resources built by hand.
use version_renamer::probe::ContentProbe;
use version_renamer::versioninfo::{
    apply_payload_probe, asks_package_reader, fixed_info, from_file, from_pe, looks_like_msi, needs_payload_probe,
    query_string, string_requests, string_sub_block, translations, value_bytes, QueryReply,
    VersionInfo, STRING_KEYS,
};

const BASE: usize = 0x10_0000;

/// A block that grows, and answers with the place of what was put in last.
struct Block {
    bytes: Vec<u8>,
}

impl Block {
    fn put(&mut self, value: &[u8]) -> QueryReply {
        let reply = QueryReply {
            found: true,
            address: BASE + self.bytes.len(),
            len: value.len() as u32,
        };
        self.bytes.extend_from_slice(value);
        reply
    }

    fn put_text(&mut self, text: &str) -> QueryReply {
        let mut bytes = Vec::new();
        for unit in text.encode_utf16() {
            bytes.extend_from_slice(&unit.to_le_bytes());
        }
        bytes.extend_from_slice(&[0, 0]);
        self.put(&bytes)
    }
}

fn missing() -> QueryReply {
    QueryReply { found: false, address: 0, len: 0 }
}

fn fixed_bytes() -> Vec<u8> {
    let mut out = Vec::new();
    for word in [
        0xFEEF_04BDu32, 0x10000, 0x0001_0002, 0x0003_0004, 0x0005_0006, 0x0007_0008, 0x3F, 3,
        0x0004_0004, 1, 0, 0, 0,
    ] {
        out.extend_from_slice(&word.to_le_bytes());
    }
    out
}

#[test]
fn a_fixed_part_is_read() {
    let fixed = fixed_info(&fixed_bytes()).unwrap();
    assert_eq!(fixed.file_version, [1, 2, 3, 4]);
    assert_eq!(fixed.product_version, [5, 6, 7, 8]);
    assert_eq!(fixed.file_type, "Application");
    assert_eq!(fixed.file_subtype, "Unknown");
    assert_eq!(fixed.file_os, "WinNT32");
    assert_eq!(fixed.file_flags, "debug,prerelease");
}

#[test]
fn a_fixed_part_needs_its_size_and_signature() {
    assert!(fixed_info(&fixed_bytes()[..51]).is_none());
    assert!(fixed_info(&[]).is_none());
    let mut wrong = fixed_bytes();
    wrong[0] = 0;
    assert!(fixed_info(&wrong).is_none());
}

#[test]
fn translations_come_in_pairs() {
    let table = [0x09, 0x04, 0xB0, 0x04, 0x07, 0x04, 0xE4, 0x04, 0xFF];
    assert_eq!(translations(&table), vec![(0x0409, 0x04B0), (0x0407, 0x04E4)]);
    assert_eq!(translations(&[]), vec![(0x0409, 0x04B0)]);
    assert_eq!(translations(&table[..3]), vec![(0x0409, 0x04B0)]);
}

#[test]
fn paths_have_four_digits_each() {
    assert_eq!(
        string_sub_block(0x0409, 0x04B0, "FileVersion"),
        "\\StringFileInfo\\040904b0\\FileVersion"
    );
    assert_eq!(
        string_sub_block(0xABCD, 0, "Comments"),
        "\\StringFileInfo\\abcd0000\\Comments"
    );
}

#[test]
fn every_key_is_asked_for_in_every_translation() {
    let requests = string_requests(&[(0x0409, 0x04B0), (0x0407, 0x04E4)]);
    assert_eq!(requests.len(), 24);
    for (i, request) in requests.iter().enumerate() {
        assert_eq!(request.key, STRING_KEYS[i % 12]);
        let pair = if i < 12 { (0x0409, 0x04B0) } else { (0x0407, 0x04E4) };
        assert_eq!(request.sub_block, string_sub_block(pair.0, pair.1, request.key));
    }
}

#[test]
fn strings_end_at_a_null_and_are_trimmed() {
    let mut block = Block { bytes: vec![0; 8] };
    let reply = block.put_text("  Äpp \u{1F600} ");
    block.put_text("behind");
    assert_eq!(
        query_string(&block.bytes, BASE, &reply),
        Some("Äpp \u{1F600}".to_owned())
    );
    let unterminated = [0x41, 0, 0x42, 0, 0x43];
    let reply = QueryReply { found: true, address: BASE, len: 1 };
    assert_eq!(query_string(&unterminated, BASE, &reply), Some("AB".to_owned()));
}

#[test]
fn a_string_needs_a_place_in_the_block() {
    let block = [0x41, 0, 0, 0];
    let at = |found: bool, address: usize, len: u32| QueryReply { found, address, len };
    assert_eq!(query_string(&block, BASE, &at(true, BASE, 1)), Some("A".to_owned()));
    assert_eq!(query_string(&block, BASE, &at(false, BASE, 1)), None);
    assert_eq!(query_string(&block, BASE, &at(true, 0, 1)), None);
    assert_eq!(query_string(&block, BASE, &at(true, BASE, 0)), None);
    assert_eq!(query_string(&block, BASE, &at(true, BASE - 1, 1)), None);
    assert_eq!(query_string(&block, BASE, &at(true, BASE + 4, 1)), None);
    assert_eq!(query_string(&block, BASE, &at(true, BASE + 5, 1)), None);
    assert_eq!(query_string(&[0x20, 0, 0, 0], BASE, &at(true, BASE, 1)), None);
}

#[test]
fn bytes_need_a_place_in_the_block() {
    let block = [1u8, 2, 3, 4];
    let at = |found: bool, address: usize, len: u32| QueryReply { found, address, len };
    assert_eq!(value_bytes(&block, BASE, &at(true, BASE + 1, 3)), &[2, 3, 4]);
    assert_eq!(value_bytes(&block, BASE, &at(true, BASE, 0)), &[] as &[u8]);
    assert_eq!(value_bytes(&block, BASE, &at(false, BASE, 3)), &[] as &[u8]);
    assert_eq!(value_bytes(&block, BASE, &at(true, BASE + 1, 4)), &[] as &[u8]);
    assert_eq!(value_bytes(&block, BASE, &at(true, BASE - 1, 1)), &[] as &[u8]);
    assert_eq!(value_bytes(&block, BASE, &at(true, usize::MAX, u32::MAX)), &[] as &[u8]);
}

#[test]
fn a_resource_completes_the_information() {
    let mut block = Block { bytes: vec![0; 4] };
    let table = block.put(&[0x09, 0x04, 0xB0, 0x04]);
    let fixed = block.put(&fixed_bytes());
    let strings: Vec<QueryReply> = STRING_KEYS
        .iter()
        .map(|key| block.put_text(&format!("the {key}")))
        .collect();
    let info = VersionInfo { arch: "x64".to_owned(), ..Default::default() };
    let info = from_pe(info, &block.bytes, BASE, &table, &strings, &fixed);
    assert_eq!(info.arch, "x64");
    assert_eq!(info.product_name, "the ProductName");
    assert_eq!(info.internal_name, "the InternalName");
    assert_eq!(info.original_filename, "the OriginalFilename");
    assert_eq!(info.file_version, "the FileVersion");
    assert_eq!(info.product_version, "the ProductVersion");
    assert_eq!(info.company_name, "the CompanyName");
    assert_eq!(info.legal_copyright, "the LegalCopyright");
    assert_eq!(info.legal_trademarks, "the LegalTrademarks");
    assert_eq!(info.file_description, "the FileDescription");
    assert_eq!(info.comments, "the Comments");
    assert_eq!(info.private_build, "the PrivateBuild");
    assert_eq!(info.special_build, "the SpecialBuild");
    assert_eq!(info.fixed.unwrap().file_version, [1, 2, 3, 4]);
}

#[test]
fn a_later_translation_overrides_an_earlier_one() {
    let mut block = Block { bytes: vec![0; 4] };
    let table = block.put(&[0x09, 0x04, 0xB0, 0x04, 0x07, 0x04, 0xB0, 0x04]);
    let mut strings: Vec<QueryReply> = Vec::new();
    for i in 0..24 {
        strings.push(match i {
            0 => block.put_text("first name"),
            1 => block.put_text("first internal"),
            12 => block.put_text("second name"),
            _ => missing(),
        });
    }
    let info = from_pe(
        VersionInfo::default(),
        &block.bytes,
        BASE,
        &table,
        &strings,
        &missing(),
    );
    assert_eq!(info.product_name, "second name");
    assert_eq!(info.internal_name, "first internal");
    assert_eq!(info.comments, "");
    assert!(info.fixed.is_none());
}

#[test]
fn only_32_bit_shells_are_probed() {
    for (arch, probed) in [("x86", true), ("x64", false), ("arm64", false), ("unknown", false)] {
        let mut info = VersionInfo { arch: arch.to_owned(), ..Default::default() };
        assert_eq!(needs_payload_probe(&info), probed);
        apply_payload_probe(&mut info, ContentProbe::Found("arm64".to_owned()));
        assert_eq!(info.arch, if probed { "arm64" } else { arch });
    }
}

#[test]
fn a_probe_sets_clears_or_keeps_the_architecture() {
    let shell = || VersionInfo {
        arch: "x86".to_owned(),
        product_name: "App".to_owned(),
        ..Default::default()
    };
    let mut info = shell();
    apply_payload_probe(&mut info, ContentProbe::Unknown);
    assert_eq!(info.arch, "");
    assert_eq!(info.product_name, "App");
    let mut info = shell();
    apply_payload_probe(&mut info, ContentProbe::Inconclusive);
    assert_eq!(info.arch, "x86");
}

#[test]
fn packages_are_told_by_extension_or_first_bytes() {
    let ole = [0xD0, 0xCF, 0x11, 0xE0, 0xA1, 0xB1, 0x1A, 0xE1];
    assert!(looks_like_msi("MSI", None));
    assert!(looks_like_msi("mst", Some([0; 8])));
    assert!(looks_like_msi("msm", None));
    assert!(looks_like_msi("exe", Some(ole)));
    assert!(!looks_like_msi("exe", Some([0; 8])));
    assert!(!looks_like_msi("", None));
}

#[test]
fn the_package_reader_is_asked_last() {
    let ole = [0xD0, 0xCF, 0x11, 0xE0, 0xA1, 0xB1, 0x1A, 0xE1];
    assert!(asks_package_reader(true, "msi", None));
    assert!(asks_package_reader(true, "bin", Some(ole)));
    assert!(!asks_package_reader(true, "exe", Some([0; 8])));
    assert!(!asks_package_reader(false, "msi", Some(ole)));
}

#[test]
fn the_first_error_is_the_one_reported() {
    let named = |name: &str| VersionInfo { product_name: name.to_owned(), ..Default::default() };
    let failed = || Err("pe".to_owned());
    assert_eq!(from_file(Ok(named("pe")), "exe", None, None).ok().unwrap().product_name, "pe");
    assert_eq!(
        from_file(Ok(named("pe")), "msi", None, Some(Ok(named("msi")))).ok().unwrap().product_name,
        "pe"
    );
    assert_eq!(
        from_file(failed(), "MSI", None, Some(Ok(named("msi")))).ok().unwrap().product_name,
        "msi"
    );
    assert_eq!(
        from_file(failed(), "exe", None, Some(Ok(named("msi")))).err().unwrap(),
        "pe"
    );
    assert_eq!(
        from_file(failed(), "msi", None, Some(Err("msi".to_owned()))).err().unwrap(),
        "pe"
    );
    assert_eq!(from_file(failed(), "msi", None, None).err().unwrap(), "pe");
}
