//! Plans for new names, and the parts of paths that they rest on.
use version_renamer::naming::{
    append_extension, choose_final_name, plan_rename, sanitize_filename, NameFallback,
    MAX_FILE_NAME_CHARS, RESERVED,
};
use version_renamer::path::{extension, file_name, file_stem};
use version_renamer::pattern::{fill_missing, render_pattern, version_part, DEFAULT_PATTERN};
use version_renamer::versioninfo::{FixedFileInfo, VersionInfo};

fn info() -> VersionInfo {
    VersionInfo {
        arch: "x64".to_owned(),
        product_name: "VSCode".to_owned(),
        fixed: Some(FixedFileInfo {
            file_version: [1, 2, 3, 0],
            product_version: [4, 3, 2, 1],
            file_type: "Application".to_owned(),
            file_subtype: String::new(),
            file_os: String::new(),
            file_flags: String::new(),
        }),
        ..Default::default()
    }
}

#[test]
fn the_example_of_the_help_holds() {
    let plan = plan_rename(DEFAULT_PATTERN, &info(), "Code-stable-e3jmdijwkdowj.exe").ok().unwrap();
    assert_eq!(plan.name, "VSCode_x64_1.2.3.0.exe");
    assert_eq!(plan.fallback, NameFallback::NotNeeded);
    assert_eq!(plan.warning, None);
}

#[test]
fn a_pattern_without_a_name_is_refused() {
    for pattern in [". .", " ", "..."] {
        assert_eq!(
            plan_rename(pattern, &info(), "a.exe").err().unwrap(),
            "pattern produced an empty file name"
        );
    }
}

#[test]
fn a_long_name_falls_back_to_the_default_pattern() {
    let pattern = "x".repeat(252);
    let plan = plan_rename(&pattern, &info(), "a.exe").ok().unwrap();
    assert_eq!(plan.name, "VSCode_x64_1.2.3.0.exe");
    assert_eq!(plan.fallback, NameFallback::DefaultPattern);
    assert_eq!(
        plan.warning.unwrap(),
        "Warning: file name from the given pattern is too long (256 chars, max 255); \
         falling back to the default pattern: \
         {Name}_{Arch}_{FileVer1}.{FileVer2}.{FileVer3}.{FileVer4}"
    );
    let plan = plan_rename(&pattern[1..], &info(), "a.exe").ok().unwrap();
    assert_eq!(plan.name.len(), MAX_FILE_NAME_CHARS);
    assert_eq!(plan.warning, None);
}

#[test]
fn a_long_default_name_leaves_the_file_its_name() {
    let info = VersionInfo { product_name: "n".repeat(300), ..info() };
    let plan = plan_rename("{Name}", &info, "a.exe").ok().unwrap();
    assert_eq!(plan.name, "a.exe");
    assert_eq!(plan.fallback, NameFallback::OriginalName);
    assert_eq!(
        plan.warning.unwrap(),
        "Warning: file name from the default pattern is also too long (316 chars, max 255); \
         keeping the original file name 'a.exe'"
    );
}

#[test]
fn the_extension_stays() {
    for (pattern, file, name) in [
        ("{Name}", "setup.MSI", "VSCode.MSI"),
        ("{Name}.msi", "setup.MSI", "VSCode.msi"),
        ("{Name}", "setup", "VSCode"),
        ("{Name}", ".hidden", "VSCode"),
        ("{Name}", "a.b.c", "VSCode.c"),
        ("{Name}", "a.", "VSCode."),
        ("con", "a.exe", "_con.exe"),
    ] {
        assert_eq!(plan_rename(pattern, &info(), file).ok().unwrap().name, name);
    }
}

#[test]
fn lengths_count_characters() {
    let wide = "Ä".repeat(MAX_FILE_NAME_CHARS);
    let (name, fallback) = choose_final_name(&wide, "b", "c");
    assert_eq!(name, wide);
    assert_eq!(fallback, NameFallback::NotNeeded);
}

#[test]
fn every_device_is_set_off() {
    for device in RESERVED {
        assert_eq!(sanitize_filename(device), format!("_{device}"));
        let lower = device.to_ascii_lowercase();
        assert_eq!(sanitize_filename(&lower), format!("_{lower}"));
        assert_eq!(sanitize_filename(&format!("{device}.a.b")), format!("_{device}.a.b"));
        assert_eq!(sanitize_filename(&format!("{device}s")), format!("{device}s"));
    }
    assert_eq!(RESERVED.len(), 22);
}

#[test]
fn sanitizing_twice_is_sanitizing_once() {
    for name in [
        "", "a", "CON", "con.", "a. . ", "a\u{7}b\u{9F}c", "nul .txt", "x:y", "...", "COM1.txt ",
    ] {
        let once = sanitize_filename(name);
        assert_eq!(sanitize_filename(&once), once);
        assert!(!once.ends_with(['.', ' ']));
        assert!(!once.contains(|c: char| c.is_control() || "<>:\"/\\|?*".contains(c)));
    }
    assert_eq!(sanitize_filename("a\u{7}b\u{9F}c"), "a_b_c");
    assert_eq!(sanitize_filename("con."), "_con");
}

#[test]
fn an_extension_is_put_on_once() {
    for (stem, ext) in [("App", ".exe"), ("App.exe", ".exe"), ("", ".exe"), ("App", ""), ("", "")] {
        let once = append_extension(stem, ext);
        assert_eq!(append_extension(&once, ext), once);
        assert!(once.to_ascii_lowercase().ends_with(&ext.to_ascii_lowercase()));
    }
}

#[test]
fn patterns_render_piece_by_piece() {
    let pieces = ["{Name}", "-", "{nope}", "}", "{{Arch}", "{FileVer1}.", "{a{b}"];
    for a in pieces {
        for b in pieces.iter().chain(["{open", "{"].iter()) {
            let whole = render_pattern(&format!("{a}{b}"), &info(), "x.exe");
            let parts = render_pattern(a, &info(), "x.exe") + &render_pattern(b, &info(), "x.exe");
            assert_eq!(whole, parts);
        }
    }
}

#[test]
fn odd_braces_are_kept() {
    for pattern in ["{", "}", "{}", "{Name", "}{", "a}b", "{{Name}", "{ Name }", "{Name{Arch}"] {
        let out = render_pattern(pattern, &info(), "x.exe");
        assert_eq!(out, pattern);
    }
    assert_eq!(render_pattern("{x}{Arch}{", &info(), "x.exe"), "{x}x64{");
}

#[test]
fn aliases_mean_the_same() {
    for (a, b) in [
        ("ProductVer", "ProdVer"),
        ("ProductVer", "P"),
        ("FileVer2", "VER-2"),
        ("FileVer3", "VER-3"),
        ("FileVer4", "VER-4"),
        ("ProductVer2", "PVER-2"),
        ("ProductVer3", "PVER-3"),
        ("ProductVer4", "PVER-4"),
        ("Description", "FileDescription"),
        ("InternalName", "INTERNAL"),
        ("OriginalName", "ORIGINAL"),
        ("PrivateBuild", "BUILD"),
        ("SpecialBuild", "SPECIAL"),
        ("FileType", "TYPE"),
        ("FileSubtype", "SUBTYPE"),
        ("FileOS", "OS"),
    ] {
        let info = VersionInfo {
            product_version: "pv".to_owned(),
            file_description: "d".to_owned(),
            internal_name: "i".to_owned(),
            original_filename: "o".to_owned(),
            private_build: "pb".to_owned(),
            special_build: "sb".to_owned(),
            fixed: Some(FixedFileInfo {
                file_version: [11, 12, 13, 14],
                product_version: [21, 22, 23, 24],
                file_type: "t".to_owned(),
                file_subtype: "s".to_owned(),
                file_os: "os".to_owned(),
                file_flags: "f".to_owned(),
            }),
            ..Default::default()
        };
        let first = render_pattern(&format!("{{{a}}}"), &info, "x");
        assert_eq!(first, render_pattern(&format!("{{{b}}}"), &info, "x"));
        assert!(!first.contains('{'));
        assert_ne!(first, "\u{FFFD}");
    }
}

#[test]
fn missing_values_are_filled() {
    assert_eq!(fill_missing(""), "\u{FFFD}");
    assert_eq!(fill_missing("a"), "a");
    let out = render_pattern("{ProductVer1}{FileVer1}{Arch}{Name}", &VersionInfo::default(), "..");
    assert_eq!(out, "\u{FFFD}\u{FFFD}\u{FFFD}\u{FFFD}");
}

#[test]
fn parts_of_versions_are_trimmed() {
    assert_eq!(version_part(" 1 . 2 ", 1), "1");
    assert_eq!(version_part(" 1 . 2 ", 2), "2");
    assert_eq!(version_part("", 1), "");
    assert_eq!(version_part("1..3", 2), "");
}

#[test]
fn files_are_named_by_their_last_component() {
    for (path, name) in [
        ("a.exe", Some("a.exe")),
        ("C:\\dir\\a.exe", Some("a.exe")),
        ("C:a.exe", Some("a.exe")),
        ("dir/a.exe", Some("a.exe")),
        ("dir\\a.exe\\", Some("a.exe")),
        ("dir/./", Some("dir")),
        ("dir/..", None),
        ("..", None),
        (".", None),
        ("", None),
        ("C:\\", None),
        ("C:", None),
        ("...", Some("...")),
        (".hidden", Some(".hidden")),
    ] {
        assert_eq!(file_name(path).as_deref(), name, "{path}");
    }
}

#[test]
fn prefixes_name_no_file() {
    for (path, name) in [
        (r"\\server\share", None),
        (r"\\server\share\", None),
        (r"\\server\share\a.exe", Some("a.exe")),
        ("//server/share/a.exe", Some("a.exe")),
        (r"\\server", Some("server")),
        (r"\\server\", Some("server")),
        (r"\a", Some("a")),
        (r"\\.\COM42", None),
        (r"\\.\COM42\a.exe", Some("a.exe")),
        (r"\\?\C:", None),
        (r"\\?\C:\a.exe", Some("a.exe")),
        (r"\\?\C:\a\.", None),
        (r"\\?\C:\a\..", None),
        (r"\\?\C:\a\b/c", Some("b/c")),
        (r"\\?\pictures", None),
        (r"\\?\pictures\a.png", Some("a.png")),
        (r"\\?\UNC\server\share", None),
        (r"\\?\UNC\server", None),
        (r"\\?\UNC\server\share\a.exe", Some("a.exe")),
        ("//?/share/a.exe", Some("a.exe")),
    ] {
        assert_eq!(file_name(path).as_deref(), name, "{path}");
    }
    assert_eq!(render_pattern("{Name}", &VersionInfo::default(), r"\\server\share"), "\u{FFFD}");
}

#[test]
fn names_fall_into_stem_and_extension_as_in_std() {
    for name in ["a.exe", "a", "a.b.c", ".hidden", ".a.b", "a.", "a..", "...", "Ä.ß", "a b.c d"] {
        let path = std::path::Path::new(name);
        let ext = path
            .extension()
            .map(|e| format!(".{}", e.to_str().unwrap()))
            .unwrap_or_default();
        assert_eq!(extension(name), ext, "{name}");
        assert_eq!(file_stem(name), path.file_stem().unwrap().to_str().unwrap());
        assert_eq!(file_stem(name) + &extension(name), name);
    }
}

#[test]
fn paths_with_slashes_are_named_as_in_std() {
    for path in ["a/b.c", "/a", "/", "a//", "a/.", "./a", "./", "a/b/..", "a/../b", ".", "a/./.", ""] {
        let expected = std::path::Path::new(path).file_name().and_then(|n| n.to_str());
        assert_eq!(file_name(path).as_deref(), expected, "{path}");
    }
}
