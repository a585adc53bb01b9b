//! Patterns and the names that come out of them.
use version_renamer::naming::{
    append_extension, choose_final_name, sanitize_filename, NameFallback, MAX_FILE_NAME_CHARS,
};
use version_renamer::pattern::{render_pattern, version_part};
use version_renamer::versioninfo::{FixedFileInfo, VersionInfo};

fn sample_info() -> VersionInfo {
    VersionInfo {
        arch: "x64".to_owned(),
        product_name: String::from("Visual Studio Code"),
        file_description: String::from("Description"),
        company_name: String::from("ACME"),
        legal_copyright: String::from("(c)"),
        legal_trademarks: String::from("TM"),
        comments: String::from("Comments"),
        internal_name: String::from("Internal"),
        original_filename: String::from("orig.exe"),
        private_build: String::from("PB"),
        special_build: String::from("SB"),
        file_version: String::from("1.2.3.4"),
        product_version: String::from("1.2.3"),
        fixed: Some(FixedFileInfo {
            file_version: [1, 2, 3, 4],
            product_version: [5, 6, 7, 8],
            file_type: "Application".to_owned(),
            file_subtype: "Unknown".to_owned(),
            file_os: "WinNT32".to_owned(),
            file_flags: "debug,prerelease".to_owned(),
        }),
    }
}

#[test]
fn renders_known_placeholders() {
    let info = sample_info();
    let out = render_pattern(
        "{Name}_{Arch}_{FileVer1}.{FileVer2}.{FileVer3}{FileVer4}-{ProductVer}",
        &info,
        "Code.exe",
    );
    assert_eq!(out, "Visual Studio Code_x64_1.2.34-1.2.3");
}

#[test]
fn placeholders_are_case_insensitive_and_unknown_are_kept() {
    let info = sample_info();
    let out = render_pattern(
        "{nAmE}-{aRcH}-{fIlEvEr1}-{UNKNOWN}",
        &info,
        "x.exe",
    );
    assert_eq!(out, "Visual Studio Code-x64-1-{UNKNOWN}");
}

#[test]
fn legacy_aliases_still_work() {
    let info = sample_info();
    let out = render_pattern("{VER-1}-{PVER-1}-{P}-{TYPE}", &info, "x.exe");
    assert_eq!(out, "1-5-1.2.3-Application");
}

#[test]
fn name_falls_back_to_original_stem() {
    let info = VersionInfo {
        arch: "x86".to_owned(),
        ..Default::default()
    };
    let out = render_pattern("{NAME}", &info, "myapp.exe");
    assert_eq!(out, "myapp");
}

#[test]
fn version_part_splits_on_dots() {
    assert_eq!(version_part("10.0.26100.8875", 1), "10");
    assert_eq!(version_part("10.0.26100.8875", 3), "26100");
    assert_eq!(version_part("10.0.26100.8875", 4), "8875");
    assert_eq!(version_part("10.0.26100.8875", 5), "");
}

#[test]
fn renders_fixed_and_extra_placeholders() {
    let info = sample_info();
    let out = render_pattern(
        "{FileType}-{FileSubtype}-{FileOS}-{Flags}-{ProductVer1}.{ProductVer2}.{ProductVer3}.\
         {ProductVer4}-{FileVer}-{ProductVer}-{Description}-{Company}-{Copyright}-{Trademarks}-\
         {Comments}-{InternalName}-{OriginalName}-{PrivateBuild}-{SpecialBuild}",
        &info,
        "Code.exe",
    );
    assert_eq!(
        out,
        "Application-Unknown-WinNT32-debug,prerelease-5.6.7.8-1.2.3.4-1.2.3-\
         Description-ACME-(c)-TM-Comments-Internal-orig.exe-PB-SB"
    );
}

#[test]
fn ver_falls_back_to_string_when_no_fixed_info() {
    let info = VersionInfo {
        file_version: String::from("10.0.26100.8875 (extra)"),
        ..Default::default()
    };
    let out = render_pattern(
        "{FileVer1}.{FileVer2}.{FileVer3}.{FileVer4}",
        &info,
        "x.exe",
    );
    assert_eq!(out, "10.0.26100.8875 (extra)");
}

#[test]
fn missing_fields_render_replacement_char() {
    let info = VersionInfo {
        arch: "x64".to_owned(),
        product_name: String::from("App"),
        ..Default::default()
    };
    let out = render_pattern(
        "{Name}-{Comments}-{Copyright}-{FileVer}-{Flags}",
        &info,
        "x.exe",
    );
    assert_eq!(out, "App-\u{FFFD}-\u{FFFD}-\u{FFFD}-\u{FFFD}");
}

#[test]
fn sanitizes_invalid_filename_characters() {
    assert_eq!(
        sanitize_filename("a<b>:c\"d/e\\f|g?h*i"),
        "a_b__c_d_e_f_g_h_i"
    );
    assert_eq!(sanitize_filename("name. "), "name");
    assert_eq!(sanitize_filename("  "), "");
}

#[test]
fn reserved_device_names_are_prefixed() {
    assert_eq!(sanitize_filename("CON"), "_CON");
    assert_eq!(sanitize_filename("com1"), "_com1");
    assert_eq!(sanitize_filename("CON.txt"), "_CON.txt");
}

#[test]
fn name_within_limit_is_kept() {
    let (name, fallback) = choose_final_name("a.exe", "b.exe", "c.exe");
    assert_eq!(name, "a.exe");
    assert_eq!(fallback, NameFallback::NotNeeded);
}

#[test]
fn long_user_name_falls_back_to_default() {
    let long = "x".repeat(MAX_FILE_NAME_CHARS + 1);
    let (name, fallback) = choose_final_name(&long, "default.exe", "orig.exe");
    assert_eq!(name, "default.exe");
    assert_eq!(fallback, NameFallback::DefaultPattern);
}

#[test]
fn long_default_falls_back_to_original() {
    let long = "x".repeat(MAX_FILE_NAME_CHARS + 1);
    let (name, fallback) = choose_final_name(&long, &long, "orig.exe");
    assert_eq!(name, "orig.exe");
    assert_eq!(fallback, NameFallback::OriginalName);
}

#[test]
fn extension_is_not_duplicated() {
    assert_eq!(append_extension("App.EXE", ".exe"), "App.EXE");
    assert_eq!(append_extension("App", ".exe"), "App.exe");
    assert_eq!(append_extension("App", ""), "App");
}
