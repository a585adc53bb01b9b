//! Values of the Windows API, and the words for them.
use version_renamer::msi::{
    ERROR_NO_MORE_ITEMS, ERROR_SUCCESS, ERROR_UNKNOWN_PROPERTY,
};
use version_renamer::versioninfo::{
    detect_arch, file_flags_name, file_os_name, file_subtype_name, file_type_name, split_version,
    FIXED_INFO_BYTES,
};
use windows::Win32::Foundation as foundation;
use windows::Win32::Storage::FileSystem as files;
use windows::Win32::System::WindowsProgramming as programming;

#[test]
fn file_types_have_names() {
    for (value, name) in [
        (files::VFT_APP, "Application"),
        (files::VFT_DLL, "DLL"),
        (files::VFT_DRV, "Driver"),
        (files::VFT_FONT, "Font"),
        (files::VFT_VXD, "VirtualDevice"),
        (files::VFT_STATIC_LIB, "StaticLibrary"),
        (files::VFT_UNKNOWN, "Unknown"),
    ] {
        assert_eq!(file_type_name(value.0 as u32), name);
    }
    assert_eq!(file_type_name(6), "Unknown");
}

#[test]
fn driver_subtypes_have_names() {
    for (value, name) in [
        (files::VFT2_DRV_PRINTER, "Printer"),
        (files::VFT2_DRV_KEYBOARD, "Keyboard"),
        (files::VFT2_DRV_LANGUAGE, "Language"),
        (files::VFT2_DRV_DISPLAY, "Display"),
        (files::VFT2_DRV_MOUSE, "Mouse"),
        (files::VFT2_DRV_NETWORK, "Network"),
        (files::VFT2_DRV_SYSTEM, "System"),
        (files::VFT2_DRV_INSTALLABLE, "Installable"),
        (files::VFT2_DRV_SOUND, "Sound"),
        (files::VFT2_DRV_COMM, "Comm"),
        (files::VFT2_DRV_INPUTMETHOD, "InputMethod"),
        (files::VFT2_DRV_VERSIONED_PRINTER, "VersionedPrinter"),
    ] {
        assert_eq!(file_subtype_name(files::VFT_DRV.0 as u32, value.0 as u32), name);
    }
    assert_eq!(file_subtype_name(files::VFT_DRV.0 as u32, 0), "Unknown");
    assert_eq!(file_subtype_name(files::VFT_DRV.0 as u32, 99), "Unknown");
}

#[test]
fn font_subtypes_have_names() {
    for (value, name) in [
        (files::VFT2_FONT_RASTER, "Raster"),
        (files::VFT2_FONT_VECTOR, "Vector"),
        (files::VFT2_FONT_TRUETYPE, "TrueType"),
    ] {
        assert_eq!(file_subtype_name(files::VFT_FONT.0 as u32, value.0 as u32), name);
    }
    assert_eq!(file_subtype_name(files::VFT_FONT.0 as u32, 9), "Unknown");
}

#[test]
fn other_subtypes_are_numbers() {
    assert_eq!(file_subtype_name(files::VFT_APP.0 as u32, 0), "Unknown");
    assert_eq!(file_subtype_name(files::VFT_APP.0 as u32, 42), "42");
}

#[test]
fn systems_have_names() {
    for (value, name) in [
        (files::VOS_NT_WINDOWS32, "WinNT32"),
        (files::VOS_DOS_WINDOWS32, "Win32"),
        (files::VOS_DOS_WINDOWS16, "Win16"),
        (files::VOS_OS232_PM32, "PM32"),
        (files::VOS_OS216_PM16, "PM16"),
        (files::VOS_NT, "NT"),
        (files::VOS_DOS, "DOS"),
        (files::VOS_OS216, "OS216"),
        (files::VOS_OS232, "OS232"),
        (files::VOS_WINCE, "WinCE"),
        (files::VOS_UNKNOWN, "Unknown"),
    ] {
        assert_eq!(file_os_name(value.0), name);
    }
}

#[test]
fn flags_are_listed_in_order() {
    for (value, name) in [
        (files::VS_FF_DEBUG, "debug"),
        (files::VS_FF_PRERELEASE, "prerelease"),
        (files::VS_FF_PATCHED, "patched"),
        (files::VS_FF_PRIVATEBUILD, "privatebuild"),
        (files::VS_FF_SPECIALBUILD, "specialbuild"),
        (files::VS_FF_INFOINFERRED, "infoinferred"),
    ] {
        assert_eq!(file_flags_name(value.0), name);
    }
    assert_eq!(file_flags_name(0), "");
    assert_eq!(file_flags_name(0xFFFF_0000), "");
    assert_eq!(
        file_flags_name((files::VS_FF_SPECIALBUILD | files::VS_FF_DEBUG).0),
        "debug,specialbuild"
    );
    assert_eq!(
        file_flags_name(0xFFFF_FFFF),
        "debug,prerelease,patched,privatebuild,specialbuild,infoinferred"
    );
}

#[test]
fn binary_types_have_tokens() {
    assert_eq!(detect_arch(Some(programming::SCS_64BIT_BINARY)), "x64");
    assert_eq!(detect_arch(Some(programming::SCS_32BIT_BINARY)), "x86");
    assert_eq!(detect_arch(Some(10)), "arm64");
    assert_eq!(detect_arch(Some(12)), "arm");
    assert_eq!(detect_arch(Some(programming::SCS_DOS_BINARY)), "unknown");
    assert_eq!(detect_arch(None), "unknown");
}

#[test]
fn return_codes_are_those_of_windows() {
    assert_eq!(ERROR_SUCCESS, foundation::ERROR_SUCCESS.0);
    assert_eq!(ERROR_NO_MORE_ITEMS, foundation::ERROR_NO_MORE_ITEMS.0);
    assert_eq!(ERROR_UNKNOWN_PROPERTY, foundation::ERROR_BAD_ARGUMENTS.0);
}

#[test]
fn the_fixed_part_has_the_size_of_its_structure() {
    assert_eq!(FIXED_INFO_BYTES, std::mem::size_of::<files::VS_FIXEDFILEINFO>());
}

#[test]
fn version_words_split_and_join() {
    let parts = split_version(0x000A_0001, 0x65F4_22AB);
    assert_eq!(parts, [10, 1, 26100, 8875]);
    assert_eq!(parts[0] << 16 | parts[1], 0x000A_0001);
    assert_eq!(parts[2] << 16 | parts[3], 0x65F4_22AB);
}
