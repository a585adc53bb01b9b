//! The command line and what is told of a rename.
use version_renamer::args::{
    command, help_text, is_help_flag, looks_like_file, parse_args, pattern_from, Command,
};
use version_renamer::naming::{
    invalid_path, read_failure, rename_failure, renamed_text, target_outcome,
};
use version_renamer::pattern::{field_of, DEFAULT_PATTERN};
use version_renamer::text::{chars_of, to_upper};

fn line(args: &[&str]) -> Vec<String> {
    args.iter().map(|s| (*s).to_owned()).collect()
}

#[test]
fn help_flags_are_known_in_either_case() {
    for arg in ["--help", "--HELP", "-h", "-H", "/?"] {
        assert!(is_help_flag(arg));
    }
    for arg in ["", "help", "--h", "-help", "?"] {
        assert!(!is_help_flag(arg));
    }
}

#[test]
fn a_file_alone_gets_the_default_pattern() {
    assert_eq!(
        parse_args(&line(&["p", "a.msi"]), false),
        Ok((1, DEFAULT_PATTERN.to_owned()))
    );
}

#[test]
fn file_and_pattern_come_in_either_order() {
    let pattern = "{Name}".to_owned();
    assert_eq!(
        parse_args(&line(&["p", "a.EXE", "{Name}"]), false),
        Ok((1, pattern.clone()))
    );
    assert_eq!(
        parse_args(&line(&["p", "{Name}", "a.EXE"]), false),
        Ok((2, pattern.clone()))
    );
    assert_eq!(
        parse_args(&line(&["p", "a.msi", "{Name}"]), true),
        Ok((1, pattern.clone()))
    );
    assert_eq!(
        parse_args(&line(&["p", "{Name}", "a.msi"]), false),
        Ok((2, pattern))
    );
}

#[test]
fn an_empty_pattern_is_refused() {
    let error = "pattern must not be empty".to_owned();
    assert_eq!(pattern_from(""), Err(error.clone()));
    assert_eq!(pattern_from("x"), Ok("x".to_owned()));
    assert_eq!(parse_args(&line(&["p", "a.exe", ""]), false), Err(error.clone()));
    assert_eq!(parse_args(&line(&["p", "", "a.exe"]), false), Err(error));
}

#[test]
fn other_numbers_of_arguments_are_refused() {
    assert_eq!(
        parse_args(&line(&["p", "a", "b", "c"]), true),
        Err("unexpected number of arguments: 3".to_owned())
    );
    assert_eq!(
        parse_args(&line(&["p"]), false),
        Err("unexpected number of arguments: 0".to_owned())
    );
    assert_eq!(
        parse_args(&[], false),
        Err("unexpected number of arguments: 0".to_owned())
    );
}

#[test]
fn programs_look_like_files() {
    assert!(looks_like_file(false, "Setup.Exe"));
    assert!(looks_like_file(true, "{Name}"));
    assert!(!looks_like_file(false, "Setup.msi"));
    assert!(!looks_like_file(false, "exe"));
}

#[test]
fn the_command_line_asks_for_one_thing() {
    assert!(matches!(command(&line(&["p"]), false), Command::Help));
    assert!(matches!(command(&line(&["p", "-h", "a.exe"]), false), Command::Help));
    match command(&line(&["p", "{Arch}", "a.exe"]), false) {
        Command::Rename(file, pattern) => {
            assert_eq!(file, 2);
            assert_eq!(pattern, "{Arch}");
        }
        _ => panic!("not a rename"),
    }
    match command(&line(&["p", "a", "b", "c"]), false) {
        Command::Usage(e) => assert_eq!(e, "unexpected number of arguments: 3"),
        _ => panic!("not an error"),
    }
}

#[test]
fn the_help_is_complete() {
    let expected = "This is Version Renamer for Windows Executables, you can rename your exe files with patterns.\n\
        Version: 1.2.3\n\
        \n\
        Supported files: PE executables (exe/dll/sys) with version info,\n\
        \u{20} MSI packages.\n\
        \n\
        Usage:\n\
        \u{20} vr.exe <FILE> [PATTERN]\n\
        \u{20} vr.exe <PATTERN> <FILE>\n\
        \n\
        When PATTERN is omitted, the default pattern is used:\n\
        \u{20} {Name}_{Arch}_{FileVer1}.{FileVer2}.{FileVer3}.{FileVer4}\n\
        \n\
        Example:\n\
        \u{20} vr.exe {Name}_{Arch}_{FileVer1}.{FileVer2}.{FileVer3}.{FileVer4} Code-stable-e3jmdijwkdowj.exe\n\
        \u{20} > VSCode_x64_1.2.3.0.exe\n\
        \n\
        Available placeholders (case-insensitive):\n\
        \n\
        \u{20} Core:\n\
        \u{20}   {Name}, {Arch}\n\
        \u{20} Version:\n\
        \u{20}   {FileVer}, {ProductVer}\n\
        \u{20}   {FileVer1}..{FileVer4}, {ProductVer1}..{ProductVer4}\n\
        \u{20} String fields:\n\
        \u{20}   {Description}, {Company}, {Copyright}, {Trademarks}\n\
        \u{20}   {Comments}, {InternalName}, {OriginalName}\n\
        \u{20}   {PrivateBuild}, {SpecialBuild}\n\
        \u{20} Fixed info:\n\
        \u{20}   {FileType}, {FileSubtype}, {FileOS}, {Flags}\n\
        \n\
        \u{20} Legacy aliases still work: {VER-1}..{VER-4}, {PVER-1}..{PVER-4}, {P},\n\
        \u{20}   {TYPE}, {SUBTYPE}, {OS}, {INTERNAL}, {ORIGINAL}, {BUILD}, {SPECIAL}\n\
        \n\
        If the resulting file name exceeds 255 characters, the default pattern is used;\n\
        if that is still too long, the original file name is kept.\n\
        \n\
        Placeholders with no value for the given file type render as \u{FFFD}.\n";
    assert_eq!(help_text("vr.exe", "1.2.3"), expected);
}

#[test]
fn the_help_names_only_known_placeholders() {
    let text = help_text("p", "1");
    let mut count = 0;
    for piece in text.split('{').skip(1) {
        let token = piece.split('}').next().unwrap();
        assert!(field_of(&to_upper(&chars_of(token))).is_some(), "{token}");
        count += 1;
    }
    assert_eq!(count, 45);
}

#[test]
fn targets_are_free_taken_or_the_file_itself() {
    assert_eq!(target_outcome(false, false, "t"), Ok(None));
    assert_eq!(target_outcome(false, true, "t"), Ok(None));
    assert_eq!(target_outcome(true, true, "t"), Ok(Some("already named 't'".to_owned())));
    assert_eq!(
        target_outcome(true, false, "t"),
        Err("target 't' already exists".to_owned())
    );
}

#[test]
fn outcomes_are_told() {
    assert_eq!(renamed_text("a", "b"), "'a' -> 'b'");
    assert_eq!(rename_failure("denied"), "rename failed: denied");
    assert_eq!(
        read_failure("a.exe", "no resource"),
        "failed to read version info from 'a.exe': no resource"
    );
    assert_eq!(invalid_path(".."), "invalid file path '..'");
}
