//! Version information of an executable: what its version resource says, in
//! the words of the file name pattern.
use crate::bytes::{has_at, le16, le32, u16_le, u32_le};
use crate::probe::{ContentProbe, ContentProbeView};
use crate::scan::OLE_MAGIC;
use crate::text::{
    chars_of, decimal, decimal_text, is_digit, is_white, joined, law_parse_decimal,
    law_trimming_takes_off_white_space, lemma_decimal, lemma_split_cons, lemma_trim_same, lower,
    parse_u32, parsed_u32, push_text, same_str, same_text, split, split_text, string_of, to_lower,
    trim, trim_text,
};
use crate::utf16::{
    before_null, decode, encode, from_utf16_lossy, law_null_ends_a_text, law_wide_round_trip,
    lemma_wide_without_null, until_null,
};
use vstd::prelude::*;
use vstd::slice::slice_subrange;
use windows::Win32::Storage::FileSystem::VS_FIXEDFILEINFO_FILE_FLAGS;

verus! {

// File types (`VFT_*`).
pub const VFT_APP: u32 = 1;

pub const VFT_DLL: u32 = 2;

pub const VFT_DRV: u32 = 3;

pub const VFT_FONT: u32 = 4;

pub const VFT_VXD: u32 = 5;

pub const VFT_STATIC_LIB: u32 = 7;

// Subtypes of drivers (`VFT2_DRV_*`).
pub const VFT2_DRV_PRINTER: u32 = 1;

pub const VFT2_DRV_KEYBOARD: u32 = 2;

pub const VFT2_DRV_LANGUAGE: u32 = 3;

pub const VFT2_DRV_DISPLAY: u32 = 4;

pub const VFT2_DRV_MOUSE: u32 = 5;

pub const VFT2_DRV_NETWORK: u32 = 6;

pub const VFT2_DRV_SYSTEM: u32 = 7;

pub const VFT2_DRV_INSTALLABLE: u32 = 8;

pub const VFT2_DRV_SOUND: u32 = 9;

pub const VFT2_DRV_COMM: u32 = 10;

pub const VFT2_DRV_INPUTMETHOD: u32 = 11;

pub const VFT2_DRV_VERSIONED_PRINTER: u32 = 12;

// Subtypes of fonts (`VFT2_FONT_*`).
pub const VFT2_FONT_RASTER: u32 = 1;

pub const VFT2_FONT_VECTOR: u32 = 2;

pub const VFT2_FONT_TRUETYPE: u32 = 3;

// Operating systems (`VOS_*`).
pub const VOS_DOS: u32 = 0x1_0000;

pub const VOS_DOS_WINDOWS16: u32 = 0x1_0001;

pub const VOS_DOS_WINDOWS32: u32 = 0x1_0004;

pub const VOS_OS216: u32 = 0x2_0000;

pub const VOS_OS216_PM16: u32 = 0x2_0002;

pub const VOS_OS232: u32 = 0x3_0000;

pub const VOS_OS232_PM32: u32 = 0x3_0003;

pub const VOS_NT: u32 = 0x4_0000;

pub const VOS_NT_WINDOWS32: u32 = 0x4_0004;

pub const VOS_WINCE: u32 = 0x5_0000;

// File flags (`VS_FF_*`).
pub const VS_FF_DEBUG: u32 = 0x01;

pub const VS_FF_PRERELEASE: u32 = 0x02;

pub const VS_FF_PATCHED: u32 = 0x04;

pub const VS_FF_PRIVATEBUILD: u32 = 0x08;

pub const VS_FF_INFOINFERRED: u32 = 0x10;

pub const VS_FF_SPECIALBUILD: u32 = 0x20;

// Binary types (`SCS_*`).
pub const SCS_32BIT_BINARY: u32 = 0;

pub const SCS_64BIT_BINARY: u32 = 6;

pub const SCS_ARM64_BINARY: u32 = 10;

pub const SCS_ARMNT_BINARY: u32 = 12;

/// Size of the fixed part of a version resource.
pub const FIXED_INFO_BYTES: usize = 52;

/// The signature at its start.
pub const FIXED_INFO_SIGNATURE: u32 = 0xFEEF_04BD;

/// The fixed part of the version information.
pub struct FixedFileInfo {
    pub file_version: [u32; 4],
    pub product_version: [u32; 4],
    pub file_type: String,
    pub file_subtype: String,
    pub file_os: String,
    pub file_flags: String,
}

/// The version information of a file.
pub struct VersionInfo {
    pub arch: String,
    pub product_name: String,
    pub internal_name: String,
    pub original_filename: String,
    pub file_version: String,
    pub product_version: String,
    pub company_name: String,
    pub legal_copyright: String,
    pub legal_trademarks: String,
    pub file_description: String,
    pub comments: String,
    pub private_build: String,
    pub special_build: String,
    pub fixed: Option<FixedFileInfo>,
}

/// The model of `FixedFileInfo`.
#[verifier::ext_equal]
pub struct FixedView {
    pub file_version: Seq<u32>,
    pub product_version: Seq<u32>,
    pub file_type: Seq<char>,
    pub file_subtype: Seq<char>,
    pub file_os: Seq<char>,
    pub file_flags: Seq<char>,
}

/// The model of `VersionInfo`.
#[verifier::ext_equal]
pub struct InfoView {
    pub arch: Seq<char>,
    pub product_name: Seq<char>,
    pub internal_name: Seq<char>,
    pub original_filename: Seq<char>,
    pub file_version: Seq<char>,
    pub product_version: Seq<char>,
    pub company_name: Seq<char>,
    pub legal_copyright: Seq<char>,
    pub legal_trademarks: Seq<char>,
    pub file_description: Seq<char>,
    pub comments: Seq<char>,
    pub private_build: Seq<char>,
    pub special_build: Seq<char>,
    pub fixed: Option<FixedView>,
}

impl View for FixedFileInfo {
    type V = FixedView;

    open spec fn view(&self) -> FixedView {
        FixedView {
            file_version: self.file_version@,
            product_version: self.product_version@,
            file_type: self.file_type@,
            file_subtype: self.file_subtype@,
            file_os: self.file_os@,
            file_flags: self.file_flags@,
        }
    }
}

impl View for VersionInfo {
    type V = InfoView;

    open spec fn view(&self) -> InfoView {
        InfoView {
            arch: self.arch@,
            product_name: self.product_name@,
            internal_name: self.internal_name@,
            original_filename: self.original_filename@,
            file_version: self.file_version@,
            product_version: self.product_version@,
            company_name: self.company_name@,
            legal_copyright: self.legal_copyright@,
            legal_trademarks: self.legal_trademarks@,
            file_description: self.file_description@,
            comments: self.comments@,
            private_build: self.private_build@,
            special_build: self.special_build@,
            fixed: match self.fixed {
                Some(f) => Some(f@),
                None => None,
            },
        }
    }
}

/// Version information without anything in it.
pub open spec fn empty_info() -> InfoView {
    InfoView {
        arch: Seq::empty(),
        product_name: Seq::empty(),
        internal_name: Seq::empty(),
        original_filename: Seq::empty(),
        file_version: Seq::empty(),
        product_version: Seq::empty(),
        company_name: Seq::empty(),
        legal_copyright: Seq::empty(),
        legal_trademarks: Seq::empty(),
        file_description: Seq::empty(),
        comments: Seq::empty(),
        private_build: Seq::empty(),
        special_build: Seq::empty(),
        fixed: None,
    }
}

impl Default for VersionInfo {
    fn default() -> (info: VersionInfo)
        ensures
            info@ == empty_info(),
    {
        VersionInfo {
            arch: String::new(),
            product_name: String::new(),
            internal_name: String::new(),
            original_filename: String::new(),
            file_version: String::new(),
            product_version: String::new(),
            company_name: String::new(),
            legal_copyright: String::new(),
            legal_trademarks: String::new(),
            file_description: String::new(),
            comments: String::new(),
            private_build: String::new(),
            special_build: String::new(),
            fixed: None,
        }
    }
}

// ---------------------------------------------------------------------
// The fixed part
// ---------------------------------------------------------------------

/// The four components of a binary version number, two in each word.
pub open spec fn version_words(ms: u32, ls: u32) -> Seq<u32> {
    seq![ms / 0x1_0000, ms % 0x1_0000, ls / 0x1_0000, ls % 0x1_0000]
}

/// The four components of a binary version number.
pub fn split_version(ms: u32, ls: u32) -> (parts: [u32; 4])
    ensures
        parts@ == version_words(ms, ls),
{
    assert((ms >> 16) & 0xFFFF == ms / 0x1_0000) by (bit_vector);
    assert(ms & 0xFFFF == ms % 0x1_0000) by (bit_vector);
    assert((ls >> 16) & 0xFFFF == ls / 0x1_0000) by (bit_vector);
    assert(ls & 0xFFFF == ls % 0x1_0000) by (bit_vector);
    let parts: [u32; 4] = [(ms >> 16) & 0xFFFF, ms & 0xFFFF, (ls >> 16) & 0xFFFF, ls & 0xFFFF];
    assert(parts@ == version_words(ms, ls));
    parts
}

/// The name of a file type.
pub open spec fn file_type_text(file_type: u32) -> Seq<char> {
    if file_type == VFT_APP {
        "Application"@
    } else if file_type == VFT_DLL {
        "DLL"@
    } else if file_type == VFT_DRV {
        "Driver"@
    } else if file_type == VFT_FONT {
        "Font"@
    } else if file_type == VFT_VXD {
        "VirtualDevice"@
    } else if file_type == VFT_STATIC_LIB {
        "StaticLibrary"@
    } else {
        "Unknown"@
    }
}

/// The name of a file type.
pub fn file_type_name(file_type: u32) -> (name: &'static str)
    ensures
        name@ == file_type_text(file_type),
{
    if file_type == VFT_APP {
        "Application"
    } else if file_type == VFT_DLL {
        "DLL"
    } else if file_type == VFT_DRV {
        "Driver"
    } else if file_type == VFT_FONT {
        "Font"
    } else if file_type == VFT_VXD {
        "VirtualDevice"
    } else if file_type == VFT_STATIC_LIB {
        "StaticLibrary"
    } else {
        "Unknown"
    }
}

/// The name of a driver subtype.
pub open spec fn driver_text(subtype: u32) -> Seq<char> {
    if subtype == VFT2_DRV_PRINTER {
        "Printer"@
    } else if subtype == VFT2_DRV_KEYBOARD {
        "Keyboard"@
    } else if subtype == VFT2_DRV_LANGUAGE {
        "Language"@
    } else if subtype == VFT2_DRV_DISPLAY {
        "Display"@
    } else if subtype == VFT2_DRV_MOUSE {
        "Mouse"@
    } else if subtype == VFT2_DRV_NETWORK {
        "Network"@
    } else if subtype == VFT2_DRV_SYSTEM {
        "System"@
    } else if subtype == VFT2_DRV_INSTALLABLE {
        "Installable"@
    } else if subtype == VFT2_DRV_SOUND {
        "Sound"@
    } else if subtype == VFT2_DRV_COMM {
        "Comm"@
    } else if subtype == VFT2_DRV_INPUTMETHOD {
        "InputMethod"@
    } else if subtype == VFT2_DRV_VERSIONED_PRINTER {
        "VersionedPrinter"@
    } else {
        "Unknown"@
    }
}

/// The name of a font subtype.
pub open spec fn font_text(subtype: u32) -> Seq<char> {
    if subtype == VFT2_FONT_RASTER {
        "Raster"@
    } else if subtype == VFT2_FONT_VECTOR {
        "Vector"@
    } else if subtype == VFT2_FONT_TRUETYPE {
        "TrueType"@
    } else {
        "Unknown"@
    }
}

/// The name of a file subtype: drivers and fonts have names, any other type
/// shows the number.
pub open spec fn file_subtype_text(file_type: u32, subtype: u32) -> Seq<char> {
    if file_type == VFT_DRV {
        driver_text(subtype)
    } else if file_type == VFT_FONT {
        font_text(subtype)
    } else if subtype == 0 {
        "Unknown"@
    } else {
        decimal(subtype as nat)
    }
}

fn driver_name(subtype: u32) -> (name: &'static str)
    ensures
        name@ == driver_text(subtype),
{
    if subtype == VFT2_DRV_PRINTER {
        "Printer"
    } else if subtype == VFT2_DRV_KEYBOARD {
        "Keyboard"
    } else if subtype == VFT2_DRV_LANGUAGE {
        "Language"
    } else if subtype == VFT2_DRV_DISPLAY {
        "Display"
    } else if subtype == VFT2_DRV_MOUSE {
        "Mouse"
    } else if subtype == VFT2_DRV_NETWORK {
        "Network"
    } else if subtype == VFT2_DRV_SYSTEM {
        "System"
    } else if subtype == VFT2_DRV_INSTALLABLE {
        "Installable"
    } else if subtype == VFT2_DRV_SOUND {
        "Sound"
    } else if subtype == VFT2_DRV_COMM {
        "Comm"
    } else if subtype == VFT2_DRV_INPUTMETHOD {
        "InputMethod"
    } else if subtype == VFT2_DRV_VERSIONED_PRINTER {
        "VersionedPrinter"
    } else {
        "Unknown"
    }
}

fn font_name(subtype: u32) -> (name: &'static str)
    ensures
        name@ == font_text(subtype),
{
    if subtype == VFT2_FONT_RASTER {
        "Raster"
    } else if subtype == VFT2_FONT_VECTOR {
        "Vector"
    } else if subtype == VFT2_FONT_TRUETYPE {
        "TrueType"
    } else {
        "Unknown"
    }
}

/// The name of a file subtype.
pub fn file_subtype_name(file_type: u32, subtype: u32) -> (name: String)
    ensures
        name@ == file_subtype_text(file_type, subtype),
{
    if file_type == VFT_DRV {
        driver_name(subtype).to_owned()
    } else if file_type == VFT_FONT {
        font_name(subtype).to_owned()
    } else if subtype == 0 {
        "Unknown".to_owned()
    } else {
        string_of(decimal_text(subtype as u128).as_slice())
    }
}

/// The name of an operating system.
pub open spec fn file_os_text(file_os: u32) -> Seq<char> {
    if file_os == VOS_NT_WINDOWS32 {
        "WinNT32"@
    } else if file_os == VOS_DOS_WINDOWS32 {
        "Win32"@
    } else if file_os == VOS_DOS_WINDOWS16 {
        "Win16"@
    } else if file_os == VOS_OS232_PM32 {
        "PM32"@
    } else if file_os == VOS_OS216_PM16 {
        "PM16"@
    } else if file_os == VOS_NT {
        "NT"@
    } else if file_os == VOS_DOS {
        "DOS"@
    } else if file_os == VOS_OS216 {
        "OS216"@
    } else if file_os == VOS_OS232 {
        "OS232"@
    } else if file_os == VOS_WINCE {
        "WinCE"@
    } else {
        "Unknown"@
    }
}

/// The name of an operating system.
pub fn file_os_name(file_os: u32) -> (name: &'static str)
    ensures
        name@ == file_os_text(file_os),
{
    if file_os == VOS_NT_WINDOWS32 {
        "WinNT32"
    } else if file_os == VOS_DOS_WINDOWS32 {
        "Win32"
    } else if file_os == VOS_DOS_WINDOWS16 {
        "Win16"
    } else if file_os == VOS_OS232_PM32 {
        "PM32"
    } else if file_os == VOS_OS216_PM16 {
        "PM16"
    } else if file_os == VOS_NT {
        "NT"
    } else if file_os == VOS_DOS {
        "DOS"
    } else if file_os == VOS_OS216 {
        "OS216"
    } else if file_os == VOS_OS232 {
        "OS232"
    } else if file_os == VOS_WINCE {
        "WinCE"
    } else {
        "Unknown"
    }
}

/// Whether a set of flags contains all bits of `flag`.
pub open spec fn flag_set(flags: u32, flag: u32) -> bool {
    flags & flag == flag
}

/// `VS_FIXEDFILEINFO_FILE_FLAGS::contains` of the `windows` crate: whether
/// the first value has every bit of the second.
#[verifier::external_body]
fn has_flag(flags: u32, flag: u32) -> (r: bool)
    ensures
        r == flag_set(flags, flag),
{
    VS_FIXEDFILEINFO_FILE_FLAGS(flags).contains(VS_FIXEDFILEINFO_FILE_FLAGS(flag))
}

/// A comma-separated list with one more name, where its flag is set.
pub open spec fn flag_added(
    text: Seq<char>,
    flags: u32,
    flag: u32,
    name: Seq<char>,
) -> Seq<char> {
    if !flag_set(flags, flag) {
        text
    } else if text.len() == 0 {
        name
    } else {
        text.push(',') + name
    }
}

/// The names of the flags that are set, separated by commas.
pub open spec fn file_flags_text(flags: u32) -> Seq<char> {
    let t = flag_added(Seq::empty(), flags, VS_FF_DEBUG, "debug"@);
    let t = flag_added(t, flags, VS_FF_PRERELEASE, "prerelease"@);
    let t = flag_added(t, flags, VS_FF_PATCHED, "patched"@);
    let t = flag_added(t, flags, VS_FF_PRIVATEBUILD, "privatebuild"@);
    let t = flag_added(t, flags, VS_FF_SPECIALBUILD, "specialbuild"@);
    flag_added(t, flags, VS_FF_INFOINFERRED, "infoinferred"@)
}

fn add_flag(text: &mut Vec<char>, flags: u32, flag: u32, name: &str)
    ensures
        final(text)@ == flag_added(old(text)@, flags, flag, name@),
{
    if has_flag(flags, flag) {
        if text.len() > 0 {
            text.push(',');
        }
        push_text(text, name);
        assert(old(text)@.len() == 0 ==> old(text)@ + name@ == name@);
    }
}

/// The names of the flags that are set.
pub fn file_flags_name(flags: u32) -> (name: String)
    ensures
        name@ == file_flags_text(flags),
{
    let mut text: Vec<char> = Vec::new();
    add_flag(&mut text, flags, VS_FF_DEBUG, "debug");
    add_flag(&mut text, flags, VS_FF_PRERELEASE, "prerelease");
    add_flag(&mut text, flags, VS_FF_PATCHED, "patched");
    add_flag(&mut text, flags, VS_FF_PRIVATEBUILD, "privatebuild");
    add_flag(&mut text, flags, VS_FF_SPECIALBUILD, "specialbuild");
    add_flag(&mut text, flags, VS_FF_INFOINFERRED, "infoinferred");
    string_of(text.as_slice())
}

/// The fixed part of a version resource, as far as the block holds one: a
/// signature, two version numbers, and words for flags, system and type.
pub open spec fn fixed_part(block: Seq<u8>) -> Option<FixedView> {
    if block.len() < FIXED_INFO_BYTES || le32(block, 0) != Some(FIXED_INFO_SIGNATURE) {
        None
    } else {
        Some(
            FixedView {
                file_version: version_words(le32(block, 8)->0, le32(block, 12)->0),
                product_version: version_words(le32(block, 16)->0, le32(block, 20)->0),
                file_type: file_type_text(le32(block, 36)->0),
                file_subtype: file_subtype_text(le32(block, 36)->0, le32(block, 40)->0),
                file_os: file_os_text(le32(block, 32)->0),
                file_flags: file_flags_text(le32(block, 28)->0),
            },
        )
    }
}

/// The model of an optional fixed part.
pub open spec fn fixed_view(fixed: Option<FixedFileInfo>) -> Option<FixedView> {
    match fixed {
        Some(f) => Some(f@),
        None => None,
    }
}

fn word(block: &[u8], off: usize) -> (w: u32)
    requires
        off + 4 <= block@.len(),
    ensures
        Some(w) == le32(block@, off as int),
{
    match u32_le(block, off) {
        Some(w) => w,
        None => 0,
    }
}

/// Reads the fixed part of a version resource.
pub fn fixed_info(block: &[u8]) -> (fixed: Option<FixedFileInfo>)
    ensures
        fixed_view(fixed) == fixed_part(block@),
{
    if block.len() < FIXED_INFO_BYTES || word(block, 0) != FIXED_INFO_SIGNATURE {
        return None;
    }
    let file_type: u32 = word(block, 36);
    Some(
        FixedFileInfo {
            file_version: split_version(word(block, 8), word(block, 12)),
            product_version: split_version(word(block, 16), word(block, 20)),
            file_type: file_type_name(file_type).to_owned(),
            file_subtype: file_subtype_name(file_type, word(block, 40)),
            file_os: file_os_name(word(block, 32)).to_owned(),
            file_flags: file_flags_name(word(block, 28)),
        },
    )
}

/// One component of a dotted version; 0 where there is none, or no number.
pub open spec fn version_component(version: Seq<char>, i: int) -> u32 {
    let parts = split(version, '.');
    if i < parts.len() {
        match parsed_u32(trim(parts[i])) {
            Some(n) => n,
            None => 0,
        }
    } else {
        0
    }
}

/// The four components of a dotted version.
pub open spec fn version_components(version: Seq<char>) -> Seq<u32> {
    seq![
        version_component(version, 0),
        version_component(version, 1),
        version_component(version, 2),
        version_component(version, 3),
    ]
}

fn component(parts: &Vec<Vec<char>>, i: usize, Ghost(version): Ghost<Seq<char>>) -> (n: u32)
    requires
        parts@.map_values(|p: Vec<char>| p@) == split(version, '.'),
    ensures
        n == version_component(version, i as int),
{
    let ghost pieces = parts@.map_values(|p: Vec<char>| p@);
    assert(pieces.len() == parts@.len());
    if i >= parts.len() {
        return 0;
    }
    assert(pieces[i as int] == parts@[i as int]@);
    match parse_u32(trim_text(parts[i].as_slice()).as_slice()) {
        Some(n) => n,
        None => 0,
    }
}

/// Parses a dotted version string into four fixed components, padding with 0.
pub fn parse_version_parts(version: &str) -> (parts: [u32; 4])
    ensures
        parts@ == version_components(version@),
{
    let chars = chars_of(version);
    let pieces = split_text(chars.as_slice(), '.');
    let parts: [u32; 4] = [
        component(&pieces, 0, Ghost(version@)),
        component(&pieces, 1, Ghost(version@)),
        component(&pieces, 2, Ghost(version@)),
        component(&pieces, 3, Ghost(version@)),
    ];
    assert(parts@ == version_components(version@));
    parts
}

// ---------------------------------------------------------------------
// The strings
// ---------------------------------------------------------------------

/// The strings of a version resource that are asked for.
pub const STRING_KEYS: [&'static str; 12] = [
    "ProductName",
    "InternalName",
    "OriginalFilename",
    "FileVersion",
    "ProductVersion",
    "CompanyName",
    "LegalCopyright",
    "LegalTrademarks",
    "FileDescription",
    "Comments",
    "PrivateBuild",
    "SpecialBuild",
];

/// The keys of the strings, in the order in which they are asked for.
pub open spec fn string_keys() -> Seq<Seq<char>> {
    seq![
        "ProductName"@,
        "InternalName"@,
        "OriginalFilename"@,
        "FileVersion"@,
        "ProductVersion"@,
        "CompanyName"@,
        "LegalCopyright"@,
        "LegalTrademarks"@,
        "FileDescription"@,
        "Comments"@,
        "PrivateBuild"@,
        "SpecialBuild"@,
    ]
}

/// The information with the string of one key set to a value.
pub open spec fn with_string(info: InfoView, key: Seq<char>, value: Seq<char>) -> InfoView {
    if key == "ProductName"@ {
        InfoView { product_name: value, ..info }
    } else if key == "InternalName"@ {
        InfoView { internal_name: value, ..info }
    } else if key == "OriginalFilename"@ {
        InfoView { original_filename: value, ..info }
    } else if key == "FileVersion"@ {
        InfoView { file_version: value, ..info }
    } else if key == "ProductVersion"@ {
        InfoView { product_version: value, ..info }
    } else if key == "CompanyName"@ {
        InfoView { company_name: value, ..info }
    } else if key == "LegalCopyright"@ {
        InfoView { legal_copyright: value, ..info }
    } else if key == "LegalTrademarks"@ {
        InfoView { legal_trademarks: value, ..info }
    } else if key == "FileDescription"@ {
        InfoView { file_description: value, ..info }
    } else if key == "Comments"@ {
        InfoView { comments: value, ..info }
    } else if key == "PrivateBuild"@ {
        InfoView { private_build: value, ..info }
    } else if key == "SpecialBuild"@ {
        InfoView { special_build: value, ..info }
    } else {
        info
    }
}

/// Sets the string of one key to a value.
pub fn set_string(info: &mut VersionInfo, key: &str, value: String)
    ensures
        final(info)@ == with_string(old(info)@, key@, value@),
{
    if same_str(key, "ProductName") {
        info.product_name = value;
    } else if same_str(key, "InternalName") {
        info.internal_name = value;
    } else if same_str(key, "OriginalFilename") {
        info.original_filename = value;
    } else if same_str(key, "FileVersion") {
        info.file_version = value;
    } else if same_str(key, "ProductVersion") {
        info.product_version = value;
    } else if same_str(key, "CompanyName") {
        info.company_name = value;
    } else if same_str(key, "LegalCopyright") {
        info.legal_copyright = value;
    } else if same_str(key, "LegalTrademarks") {
        info.legal_trademarks = value;
    } else if same_str(key, "FileDescription") {
        info.file_description = value;
    } else if same_str(key, "Comments") {
        info.comments = value;
    } else if same_str(key, "PrivateBuild") {
        info.private_build = value;
    } else if same_str(key, "SpecialBuild") {
        info.special_build = value;
    }
}

/// A lower-case hexadecimal digit.
pub open spec fn hex_digit(d: u16) -> char {
    if d < 10 {
        ((48 + d) as u32) as char
    } else {
        ((87 + d) as u32) as char
    }
}

/// Four lower-case hexadecimal digits.
pub open spec fn hex4(n: u16) -> Seq<char> {
    seq![
        hex_digit(n / 4096),
        hex_digit(n / 256 % 16),
        hex_digit(n / 16 % 16),
        hex_digit(n % 16),
    ]
}

fn push_hex4(out: &mut Vec<char>, n: u16)
    ensures
        final(out)@ == old(out)@ + hex4(n),
{
    let d: [u16; 4] = [n / 4096, n / 256 % 16, n / 16 % 16, n % 16];
    for i in 0..4
        invariant
            d@ == seq![n / 4096, n / 256 % 16, n / 16 % 16, n % 16],
            out@ == old(out)@ + hex4(n).take(i as int),
    {
        let x: u8 = d[i] as u8;
        let c: char = if x < 10 {
            (48 + x) as char
        } else {
            (87 + x) as char
        };
        assert(c == hex4(n)[i as int]);
        out.push(c);
    }
    assert(hex4(n).take(4) == hex4(n));
}

/// The path of a string in a version resource, for a language and code page.
pub open spec fn string_path(lang: u16, code_page: u16, key: Seq<char>) -> Seq<char> {
    "\\StringFileInfo\\"@ + hex4(lang) + hex4(code_page) + "\\"@ + key
}

/// The path of a string in a version resource.
pub fn string_sub_block(lang: u16, code_page: u16, key: &str) -> (path: String)
    ensures
        path@ == string_path(lang, code_page, key@),
{
    let mut out: Vec<char> = Vec::new();
    push_text(&mut out, "\\StringFileInfo\\");
    push_hex4(&mut out, lang);
    push_hex4(&mut out, code_page);
    push_text(&mut out, "\\");
    push_text(&mut out, key);
    string_of(out.as_slice())
}

/// The language and code page pairs of a translation table.
pub open spec fn table_pairs(table: Seq<u8>) -> Seq<(u16, u16)> {
    Seq::new(
        table.len() / 4,
        |i: int| (le16(table, 4 * i)->0, le16(table, 4 * i + 2)->0),
    )
}

/// The translations to look for. Without a table it is the classic pair of
/// neutral English (0x0409) and Unicode (0x04B0).
pub open spec fn translation_pairs(table: Seq<u8>) -> Seq<(u16, u16)> {
    if table.len() < 4 {
        seq![(0x0409u16, 0x04B0u16)]
    } else {
        table_pairs(table)
    }
}

fn half_word(block: &[u8], off: usize) -> (w: u16)
    requires
        off + 2 <= block@.len(),
    ensures
        Some(w) == le16(block@, off as int),
{
    match u16_le(block, off) {
        Some(w) => w,
        None => 0,
    }
}

/// The translations that the table of a version resource lists; an empty
/// table stands for a missing one.
pub fn translations(table: &[u8]) -> (pairs: Vec<(u16, u16)>)
    ensures
        pairs@ == translation_pairs(table@),
{
    let mut pairs: Vec<(u16, u16)> = Vec::new();
    if table.len() < 4 {
        pairs.push((0x0409, 0x04B0));
        assert(pairs@ == seq![(0x0409u16, 0x04B0u16)]);
        return pairs;
    }
    let n: usize = table.len() / 4;
    for i in 0..n
        invariant
            n == table.len() / 4,
            pairs@ == table_pairs(table@).take(i as int),
    {
        let lang: u16 = half_word(table, 4 * i);
        let code_page: u16 = half_word(table, 4 * i + 2);
        pairs.push((lang, code_page));
    }
    assert(table_pairs(table@).take(n as int) == table_pairs(table@));
    pairs
}

/// A string to ask a version resource for.
pub struct StringRequest {
    /// The key of the string.
    pub key: &'static str,
    /// Its path in the resource.
    pub sub_block: String,
}

/// The model of a request: its key and its path.
pub open spec fn request_view(r: StringRequest) -> (Seq<char>, Seq<char>) {
    (r.key@, r.sub_block@)
}

/// The requests for the first `n` strings, counted through all keys of one
/// translation after another.
pub open spec fn requests_for(pairs: Seq<(u16, u16)>, n: int) -> Seq<(Seq<char>, Seq<char>)> {
    Seq::new(
        n as nat,
        |i: int|
            (
                string_keys()[i % 12],
                string_path(pairs[i / 12].0, pairs[i / 12].1, string_keys()[i % 12]),
            ),
    )
}

/// The requests for all strings in all translations.
pub open spec fn all_requests(pairs: Seq<(u16, u16)>) -> Seq<(Seq<char>, Seq<char>)> {
    requests_for(pairs, 12 * pairs.len() as int)
}

proof fn lemma_string_keys(k: int)
    requires
        0 <= k < 12,
    ensures
        STRING_KEYS@[k]@ == string_keys()[k],
{
}

/// The strings to ask a version resource for, in order.
pub fn string_requests(pairs: &[(u16, u16)]) -> (requests: Vec<StringRequest>)
    ensures
        requests@.map_values(|r: StringRequest| request_view(r)) == all_requests(pairs@),
{
    let mut requests: Vec<StringRequest> = Vec::new();
    let ghost f = |r: StringRequest| request_view(r);
    assert(requests@.map_values(f) == requests_for(pairs@, 0));
    for i in 0..pairs.len()
        invariant
            f == (|r: StringRequest| request_view(r)),
            requests@.map_values(f) == requests_for(pairs@, 12 * i as int),
    {
        let lang: u16 = pairs[i].0;
        let code_page: u16 = pairs[i].1;
        for k in 0..12
            invariant
                i < pairs.len(),
                lang == pairs@[i as int].0,
                code_page == pairs@[i as int].1,
                f == (|r: StringRequest| request_view(r)),
                requests@.map_values(f) == requests_for(pairs@, 12 * i + k),
        {
            let key = STRING_KEYS[k];
            let ghost before = requests@;
            let request = StringRequest { key, sub_block: string_sub_block(lang, code_page, key) };
            proof {
                lemma_string_keys(k as int);
                assert((12 * i + k) % 12 == k && (12 * i + k) / 12 == i);
            }
            let ghost view = request_view(request);
            requests.push(request);
            proof {
                let next = requests_for(pairs@, 12 * i + k + 1);
                assert(requests@.map_values(f) == before.map_values(f).push(view));
                assert(next == requests_for(pairs@, 12 * i + k).push(view));
            }
        }
    }
    requests
}

/// The answer of a version resource to a request: whether a value was found,
/// the address at which it stands, and its length as reported.
pub struct QueryReply {
    pub found: bool,
    pub address: usize,
    pub len: u32,
}

/// The 16-bit units of a block from an offset to its end.
pub open spec fn units_from(block: Seq<u8>, off: int) -> Seq<u16> {
    Seq::new(
        ((block.len() - off) / 2) as nat,
        |i: int| (block[off + 2 * i] + 256 * block[off + 2 * i + 1]) as u16,
    )
}

/// The string that stands at an offset of a block: up to the first null,
/// since the reported lengths are unreliable, and without white space around
/// it; none when nothing is left.
pub open spec fn string_at(block: Seq<u8>, off: int) -> Option<Seq<char>> {
    let text = trim(decode(until_null(units_from(block, off))));
    if text.len() == 0 {
        None
    } else {
        Some(text)
    }
}

/// The string that an answer stands for, where the block itself stands at
/// the address `base`.
pub open spec fn reply_string(block: Seq<u8>, base: usize, reply: QueryReply) -> Option<
    Seq<char>,
> {
    if !reply.found || reply.address == 0 || reply.len == 0 || reply.address < base
        || reply.address > base + block.len() {
        None
    } else {
        string_at(block, reply.address - base)
    }
}

/// The model of an optional string.
pub open spec fn string_view(s: Option<String>) -> Option<Seq<char>> {
    match s {
        Some(s) => Some(s@),
        None => None,
    }
}

/// Reads the string that an answer points to. `base` is the address of the
/// block, and the answer is trusted only inside the block.
pub fn query_string(block: &[u8], base: usize, reply: &QueryReply) -> (value: Option<String>)
    ensures
        string_view(value) == reply_string(block@, base, *reply),
{
    if !reply.found || reply.address == 0 || reply.len == 0 || reply.address < base {
        return None;
    }
    let off: usize = reply.address - base;
    if off > block.len() {
        return None;
    }
    let n: usize = (block.len() - off) / 2;
    let mut units: Vec<u16> = Vec::new();
    for i in 0..n
        invariant
            off <= block.len(),
            n == (block.len() - off) / 2,
            units@ == units_from(block@, off as int).take(i as int),
    {
        units.push(block[off + 2 * i] as u16 + 256 * (block[off + 2 * i + 1] as u16));
    }
    assert(units@ == units_from(block@, off as int));
    let text = from_utf16_lossy(before_null(units.as_slice()).as_slice());
    let text = trim_text(text.as_slice());
    if text.len() == 0 {
        None
    } else {
        Some(string_of(text.as_slice()))
    }
}

/// The bytes that an answer stands for: none where there is no answer, or one
/// that leads out of the block.
pub open spec fn reply_bytes(block: Seq<u8>, base: usize, reply: QueryReply) -> Seq<u8> {
    if !reply.found || reply.address == 0 || reply.address < base || reply.address + reply.len
        > base + block.len() {
        Seq::empty()
    } else {
        block.subrange(reply.address - base, reply.address - base + reply.len)
    }
}

/// The bytes that an answer points to. `base` is the address of the block, and
/// the answer is trusted only inside the block.
pub fn value_bytes<'a>(block: &'a [u8], base: usize, reply: &QueryReply) -> (bytes: &'a [u8])
    ensures
        bytes@ == reply_bytes(block@, base, *reply),
{
    if reply.found && reply.address != 0 && reply.address >= base {
        let off: usize = reply.address - base;
        if off <= block.len() && (reply.len as u64) <= (block.len() - off) as u64 {
            return slice_subrange(block, off, off + reply.len as usize);
        }
    }
    slice_subrange(block, 0, 0)
}

/// The information after the first `n` requests have been answered; a later
/// translation overrides an earlier one.
pub open spec fn strings_set(
    info: InfoView,
    requests: Seq<(Seq<char>, Seq<char>)>,
    values: Seq<Option<Seq<char>>>,
    n: int,
) -> InfoView
    decreases n,
{
    if n <= 0 {
        info
    } else {
        let before = strings_set(info, requests, values, n - 1);
        match values[n - 1] {
            Some(value) => with_string(before, requests[n - 1].0, value),
            None => before,
        }
    }
}

/// How many requests have an answer.
pub open spec fn answered(
    requests: Seq<(Seq<char>, Seq<char>)>,
    values: Seq<Option<Seq<char>>>,
) -> int {
    if requests.len() < values.len() {
        requests.len() as int
    } else {
        values.len() as int
    }
}

/// What the version resource of an executable adds to the information, given
/// the bytes of its translation table, the values of the strings for the
/// translations, in the order in which they are asked for, and the bytes of
/// the fixed part.
pub open spec fn resource_info(
    info: InfoView,
    table: Seq<u8>,
    values: Seq<Option<Seq<char>>>,
    fixed: Seq<u8>,
) -> InfoView {
    let requests = all_requests(translation_pairs(table));
    let filled = strings_set(info, requests, values, answered(requests, values));
    match fixed_part(fixed) {
        Some(f) => InfoView { fixed: Some(f), ..filled },
        None => filled,
    }
}

/// The strings that answers stand for.
pub open spec fn reply_strings(block: Seq<u8>, base: usize, replies: Seq<QueryReply>) -> Seq<
    Option<Seq<char>>,
> {
    replies.map_values(|reply: QueryReply| reply_string(block, base, reply))
}

/// Completes the information on an executable from its version resource,
/// whose block stands at the address `base`: `table` answers for the
/// translation table, `strings` answers the requests that `string_requests`
/// makes for its translations, in their order, and `fixed` answers for the
/// fixed part.
pub fn from_pe(
    info: VersionInfo,
    block: &[u8],
    base: usize,
    table: &QueryReply,
    strings: &[QueryReply],
    fixed: &QueryReply,
) -> (r: VersionInfo)
    ensures
        r@ == resource_info(
            info@,
            reply_bytes(block@, base, *table),
            reply_strings(block@, base, strings@),
            reply_bytes(block@, base, *fixed),
        ),
{
    let ghost info0 = info@;
    let mut info = info;
    let pairs = translations(value_bytes(block, base, table));
    let requests = string_requests(pairs.as_slice());
    let ghost all = all_requests(pairs@);
    let ghost values = reply_strings(block@, base, strings@);
    let n: usize = if requests.len() < strings.len() {
        requests.len()
    } else {
        strings.len()
    };
    proof {
        assert(requests@.map_values(|r: StringRequest| request_view(r)).len() == requests@.len());
    }
    for i in 0..n
        invariant
            all == requests@.map_values(|r: StringRequest| request_view(r)),
            values == reply_strings(block@, base, strings@),
            n <= requests.len(),
            n <= strings.len(),
            info@ == strings_set(info0, all, values, i as int),
    {
        assert(all[i as int] == request_view(requests@[i as int]));
        assert(values[i as int] == reply_string(block@, base, strings@[i as int]));
        if let Some(value) = query_string(block, base, &strings[i]) {
            set_string(&mut info, requests[i].key, value);
        }
    }
    if let Some(f) = fixed_info(value_bytes(block, base, fixed)) {
        info.fixed = Some(f);
    }
    info
}

// ---------------------------------------------------------------------
// The architecture
// ---------------------------------------------------------------------

/// The architecture token of a binary type; `unknown` for an unreadable file.
pub open spec fn binary_type_token(binary_type: Option<u32>) -> Seq<char> {
    match binary_type {
        Some(t) => if t == SCS_64BIT_BINARY {
            "x64"@
        } else if t == SCS_32BIT_BINARY {
            "x86"@
        } else if t == SCS_ARM64_BINARY {
            "arm64"@
        } else if t == SCS_ARMNT_BINARY {
            "arm"@
        } else {
            "unknown"@
        },
        None => "unknown"@,
    }
}

/// The architecture of an outer image, by its binary type.
pub fn detect_arch(binary_type: Option<u32>) -> (arch: String)
    ensures
        arch@ == binary_type_token(binary_type),
{
    match binary_type {
        Some(t) => {
            if t == SCS_64BIT_BINARY {
                "x64".to_owned()
            } else if t == SCS_32BIT_BINARY {
                "x86".to_owned()
            } else if t == SCS_ARM64_BINARY {
                "arm64".to_owned()
            } else if t == SCS_ARMNT_BINARY {
                "arm".to_owned()
            } else {
                "unknown".to_owned()
            }
        },
        None => "unknown".to_owned(),
    }
}

/// Whether the payload has a say in the architecture: installer shells are
/// frequently 32-bit, so only an x86 image is in doubt.
pub fn needs_payload_probe(info: &VersionInfo) -> (r: bool)
    ensures
        r == (info@.arch == "x86"@),
{
    same_str(info.arch.as_str(), "x86")
}

/// The information after the payload has been probed. An unknown payload
/// leaves the architecture empty.
pub open spec fn probed(info: InfoView, probe: ContentProbeView) -> InfoView {
    if info.arch != "x86"@ {
        info
    } else {
        match probe {
            ContentProbeView::Found(arch) => InfoView { arch, ..info },
            ContentProbeView::Unknown => InfoView { arch: Seq::empty(), ..info },
            ContentProbeView::Inconclusive => info,
        }
    }
}

/// Lets the payload override the architecture of an x86 shell.
pub fn apply_payload_probe(info: &mut VersionInfo, probe: ContentProbe)
    ensures
        final(info)@ == probed(old(info)@, probe@),
{
    if !needs_payload_probe(info) {
        return;
    }
    match probe {
        ContentProbe::Found(arch) => {
            info.arch = arch;
        },
        ContentProbe::Unknown => {
            info.arch = String::new();
        },
        ContentProbe::Inconclusive => {},
    }
}

// ---------------------------------------------------------------------
// The kind of file
// ---------------------------------------------------------------------

/// Whether a file may be an MSI package, by its extension or its first bytes.
pub open spec fn msi_like(extension: Seq<char>, magic: Option<[u8; 8]>) -> bool {
    let e = lower(extension);
    e == "msi"@ || e == "mst"@ || e == "msm"@ || (magic is Some && magic->0@ == OLE_MAGIC@)
}

/// Whether a file may be an MSI package. `magic` holds its first bytes, if
/// there are that many.
pub fn looks_like_msi(extension: &str, magic: Option<[u8; 8]>) -> (r: bool)
    ensures
        r == msi_like(extension@, magic),
{
    let e = to_lower(chars_of(extension).as_slice());
    if same_text(e.as_slice(), "msi") || same_text(e.as_slice(), "mst") || same_text(
        e.as_slice(),
        "msm",
    ) {
        return true;
    }
    match magic {
        Some(m) => {
            assert(m@.subrange(0, 8) == m@);
            has_at(m.as_slice(), 0, OLE_MAGIC.as_slice())
        },
        None => false,
    }
}

/// The model of information or an error text.
pub open spec fn info_result(r: Result<VersionInfo, String>) -> Result<InfoView, Seq<char>> {
    match r {
        Ok(info) => Ok(info@),
        Err(e) => Err(e@),
    }
}

/// Whether the package reader is asked for a file: only where the executable
/// reader failed and the file may be an MSI package.
pub open spec fn package_reader_asked(
    pe_failed: bool,
    extension: Seq<char>,
    magic: Option<[u8; 8]>,
) -> bool {
    pe_failed && msi_like(extension, magic)
}

/// Whether the package reader is to be asked for a file. `pe_failed` says
/// whether the executable reader failed.
pub fn asks_package_reader(pe_failed: bool, extension: &str, magic: Option<[u8; 8]>) -> (r: bool)
    ensures
        r == package_reader_asked(pe_failed, extension@, magic),
{
    pe_failed && looks_like_msi(extension, magic)
}

/// The version information of a file: that of an executable, or else that of
/// an MSI package where the package reader is asked and succeeds. The error of
/// the first attempt is the one reported.
pub open spec fn file_result(
    pe: Result<InfoView, Seq<char>>,
    extension: Seq<char>,
    magic: Option<[u8; 8]>,
    msi: Option<Result<InfoView, Seq<char>>>,
) -> Result<InfoView, Seq<char>> {
    if package_reader_asked(pe is Err, extension, magic) && msi is Some && msi->0 is Ok {
        msi->0
    } else {
        pe
    }
}

/// The model of an optional result.
pub open spec fn package_answer(msi: Option<Result<VersionInfo, String>>) -> Option<
    Result<InfoView, Seq<char>>,
> {
    match msi {
        Some(r) => Some(info_result(r)),
        None => None,
    }
}

/// The version information of a file, from what the executable reader gave
/// and, where `asks_package_reader` says so, from what the package reader
/// gave. What the package reader says of any other file is not heeded.
pub fn from_file(
    pe: Result<VersionInfo, String>,
    extension: &str,
    magic: Option<[u8; 8]>,
    msi: Option<Result<VersionInfo, String>>,
) -> (r: Result<VersionInfo, String>)
    ensures
        info_result(r) == file_result(info_result(pe), extension@, magic, package_answer(msi)),
{
    match pe {
        Ok(info) => Ok(info),
        Err(e) => {
            if asks_package_reader(true, extension, magic) {
                if let Some(Ok(info)) = msi {
                    return Ok(info);
                }
            }
            Err(e)
        },
    }
}

// ---------------------------------------------------------------------
// Laws
// ---------------------------------------------------------------------

/// The package reader matters only where it is asked: whatever it would say
/// of another file, the result is that of the executable reader.
pub proof fn law_package_reader_matters_only_where_asked(
    pe: Result<InfoView, Seq<char>>,
    extension: Seq<char>,
    magic: Option<[u8; 8]>,
    msi: Option<Result<InfoView, Seq<char>>>,
)
    ensures
        !package_reader_asked(pe is Err, extension, magic) ==> file_result(
            pe,
            extension,
            magic,
            msi,
        ) == pe,
        pe is Ok ==> !package_reader_asked(pe is Err, extension, magic),
{
}

/// A file that cannot be read is answered with the error of the executable
/// reader, whether or not it looks like a package.
pub proof fn law_unreadable_files_give_the_first_error(
    error: Seq<char>,
    extension: Seq<char>,
    magic: Option<[u8; 8]>,
    msi: Option<Result<InfoView, Seq<char>>>,
)
    ensures
        file_result(Err(error), extension, magic, msi) is Err ==> file_result(
            Err(error),
            extension,
            magic,
            msi,
        ) == Err::<InfoView, Seq<char>>(error),
        file_result(Err(error), extension, magic, msi) is Ok <==> (msi_like(extension, magic) && msi
            is Some && msi->0 is Ok),
{
}

/// A probe of the payload touches nothing but the architecture, and that only
/// of an x86 shell.
pub proof fn law_probes_change_only_shells(info: InfoView, probe: ContentProbeView)
    ensures
        probed(info, probe) == (InfoView { arch: probed(info, probe).arch, ..info }),
        info.arch != "x86"@ ==> probed(info, probe) == info,
        probe == ContentProbeView::Inconclusive ==> probed(info, probe) == info,
{
}

/// Splitting a binary version loses nothing: the two words can be put
/// together again, and every component has sixteen bits.
pub proof fn law_version_words_lose_nothing(ms: u32, ls: u32)
    ensures
        version_words(ms, ls)[0] * 0x1_0000 + version_words(ms, ls)[1] == ms,
        version_words(ms, ls)[2] * 0x1_0000 + version_words(ms, ls)[3] == ls,
        forall|i: int| 0 <= i < 4 ==> #[trigger] version_words(ms, ls)[i] < 0x1_0000,
{
}

/// A version of four numbers, written with dots.
pub open spec fn dotted(a: u32, b: u32, c: u32, d: u32) -> Seq<char> {
    decimal(a as nat) + seq!['.'] + (decimal(b as nat) + seq!['.'] + (decimal(c as nat) + seq!['.']
        + decimal(d as nat)))
}

/// The pieces of a dotted version are its numbers.
pub proof fn lemma_dotted_pieces(a: u32, b: u32, c: u32, d: u32)
    ensures
        split(dotted(a, b, c, d), '.') == seq![
            decimal(a as nat),
            decimal(b as nat),
            decimal(c as nat),
            decimal(d as nat),
        ],
        trim(decimal(a as nat)) == decimal(a as nat),
        trim(decimal(b as nat)) == decimal(b as nat),
        trim(decimal(c as nat)) == decimal(c as nat),
        trim(decimal(d as nat)) == decimal(d as nat),
{
    lemma_number_piece(a);
    lemma_number_piece(b);
    lemma_number_piece(c);
    lemma_number_piece(d);
    let last = decimal(d as nat);
    let tail = decimal(c as nat) + seq!['.'] + last;
    lemma_split_cons(last, '.', Seq::empty());
    lemma_split_cons(decimal(c as nat), '.', last);
    lemma_split_cons(decimal(b as nat), '.', tail);
    lemma_split_cons(decimal(a as nat), '.', decimal(b as nat) + seq!['.'] + tail);
}

proof fn lemma_number_piece(n: u32)
    ensures
        forall|i: int| 0 <= i < decimal(n as nat).len() ==> decimal(n as nat)[i] != '.',
        trim(decimal(n as nat)) == decimal(n as nat),
{
    lemma_decimal(n as nat);
    let s = decimal(n as nat);
    assert forall|i: int| 0 <= i < s.len() implies s[i] != '.' by {
        assert(is_digit(s[i]));
    }
    assert(is_digit(s[0]));
    assert(is_digit(s.last()));
    lemma_trim_same(s);
}

/// Reading a dotted version gives back the numbers that were written.
pub proof fn law_dotted_version_round_trip(a: u32, b: u32, c: u32, d: u32)
    ensures
        version_components(dotted(a, b, c, d)) == seq![a, b, c, d],
{
    lemma_dotted_pieces(a, b, c, d);
    law_parse_decimal(a);
    law_parse_decimal(b);
    law_parse_decimal(c);
    law_parse_decimal(d);
}

/// The string of a key; none for a key that is not asked for.
pub open spec fn string_of_key(info: InfoView, key: Seq<char>) -> Option<Seq<char>> {
    if key == "ProductName"@ {
        Some(info.product_name)
    } else if key == "InternalName"@ {
        Some(info.internal_name)
    } else if key == "OriginalFilename"@ {
        Some(info.original_filename)
    } else if key == "FileVersion"@ {
        Some(info.file_version)
    } else if key == "ProductVersion"@ {
        Some(info.product_version)
    } else if key == "CompanyName"@ {
        Some(info.company_name)
    } else if key == "LegalCopyright"@ {
        Some(info.legal_copyright)
    } else if key == "LegalTrademarks"@ {
        Some(info.legal_trademarks)
    } else if key == "FileDescription"@ {
        Some(info.file_description)
    } else if key == "Comments"@ {
        Some(info.comments)
    } else if key == "PrivateBuild"@ {
        Some(info.private_build)
    } else if key == "SpecialBuild"@ {
        Some(info.special_build)
    } else {
        None
    }
}

/// The strings that no answer brings stay as they were.
pub proof fn law_unanswered_strings_stay(
    info: InfoView,
    requests: Seq<(Seq<char>, Seq<char>)>,
    values: Seq<Option<Seq<char>>>,
    n: int,
    key: Seq<char>,
)
    requires
        0 <= n <= requests.len(),
        n <= values.len(),
        forall|i: int| 0 <= i < n && requests[i].0 == key ==> (#[trigger] values[i]) is None,
    ensures
        string_of_key(strings_set(info, requests, values, n), key) == string_of_key(info, key),
    decreases n,
{
    if n > 0 {
        law_unanswered_strings_stay(info, requests, values, n - 1, key);
        assert(requests[n - 1].0 == key ==> values[n - 1] is None);
    }
}

/// Of several answers for a key the last one counts, so that a later
/// translation overrides an earlier one.
pub proof fn law_last_answer_wins(
    info: InfoView,
    requests: Seq<(Seq<char>, Seq<char>)>,
    values: Seq<Option<Seq<char>>>,
    n: int,
    at: int,
)
    requires
        0 <= at < n <= requests.len(),
        n <= values.len(),
        values[at] is Some,
        string_of_key(info, requests[at].0) is Some,
        forall|i: int|
            at < i < n && requests[i].0 == requests[at].0 ==> (#[trigger] values[i]) is None,
    ensures
        string_of_key(strings_set(info, requests, values, n), requests[at].0) == values[at],
    decreases n,
{
    if at < n - 1 {
        law_last_answer_wins(info, requests, values, n - 1, at);
        assert(requests[n - 1].0 == requests[at].0 ==> values[n - 1] is None);
    } else {
        lemma_strings_stay_named(info, requests, values, n - 1, requests[at].0);
    }
}

proof fn lemma_strings_stay_named(
    info: InfoView,
    requests: Seq<(Seq<char>, Seq<char>)>,
    values: Seq<Option<Seq<char>>>,
    n: int,
    key: Seq<char>,
)
    requires
        string_of_key(info, key) is Some,
    ensures
        string_of_key(strings_set(info, requests, values, n), key) is Some,
    decreases n,
{
    if n > 0 {
        lemma_strings_stay_named(info, requests, values, n - 1, key);
    }
}

proof fn lemma_units_of_block(block: Seq<u8>, off: int, units: Seq<u16>)
    requires
        0 <= off,
        off + 2 * units.len() <= block.len(),
        forall|i: int|
            0 <= i < units.len() ==> block[off + 2 * i] + 256 * block[off + 2 * i + 1]
                == #[trigger] units[i],
    ensures
        units_from(block, off).len() >= units.len(),
        units_from(block, off).take(units.len() as int) == units,
{
    let all = units_from(block, off);
    assert forall|i: int| 0 <= i < units.len() implies all[i] == units[i] by {
        assert(block[off + 2 * i] + 256 * block[off + 2 * i + 1] == units[i]);
    }
}

/// A string of a version resource is read whole: the text that stands in the
/// block up to a null, or up to the end of the block, comes back without the
/// white space around it, whatever follows the null.
pub proof fn law_resource_strings_are_read(
    block: Seq<u8>,
    off: int,
    before: Seq<char>,
    text: Seq<char>,
    after: Seq<char>,
)
    requires
        0 <= off,
        forall|i: int| 0 <= i < before.len() ==> is_white(before[i]),
        forall|i: int| 0 <= i < after.len() ==> is_white(after[i]),
        text.len() > 0 ==> !is_white(text[0]) && !is_white(text.last()),
        forall|i: int| 0 <= i < text.len() ==> text[i] != '\0',
        off + 2 * encode(before + text + after).len() <= block.len(),
        forall|i: int|
            0 <= i < encode(before + text + after).len() ==> block[off + 2 * i] + 256 * block[off
                + 2 * i + 1] == #[trigger] encode(before + text + after)[i],
        ({
            let end = off + 2 * encode(before + text + after).len();
            end + 2 <= block.len() ==> block[end] == 0 && block[end + 1] == 0
        }),
    ensures
        text.len() > 0 ==> string_at(block, off) == Some(text),
        text.len() == 0 ==> string_at(block, off) is None,
{
    let s = before + text + after;
    let units = encode(s);
    let all = units_from(block, off);
    let n = units.len() as int;
    lemma_units_of_block(block, off, units);
    assert forall|i: int| 0 <= i < s.len() implies s[i] != '\0' by {
        if i < before.len() {
            assert(is_white(before[i]));
        } else if i < before.len() + text.len() {
            assert(s[i] == text[i - before.len()]);
        } else {
            assert(is_white(after[i - before.len() - text.len()]));
        }
    }
    if all.len() > n {
        assert(all[n] == 0);
        let rest = all.skip(n + 1);
        assert(all == units.push(0) + rest);
        law_wide_round_trip(s, rest);
    } else {
        assert(all == units);
        lemma_wide_without_null(s);
    }
    law_trimming_takes_off_white_space(before, text, after);
}

/// An answer that points into the block stands for the string there; an
/// answer without a value, or one that points elsewhere, for none.
pub proof fn law_answers_point_into_the_block(block: Seq<u8>, base: usize, reply: QueryReply)
    ensures
        reply.found && reply.address != 0 && reply.len != 0 && base <= reply.address <= base
            + block.len() ==> reply_string(block, base, reply) == string_at(
            block,
            reply.address - base,
        ),
        !(reply.found && reply.address != 0 && reply.len != 0 && base <= reply.address <= base
            + block.len()) ==> reply_string(block, base, reply) is None,
        reply.found && reply.address != 0 && base <= reply.address && reply.address + reply.len
            <= base + block.len() ==> {
            &&& reply_bytes(block, base, reply).len() == reply.len
            &&& forall|i: int|
                0 <= i < reply.len ==> #[trigger] reply_bytes(block, base, reply)[i]
                    == block[reply.address - base + i]
        },
        !reply.found || reply.address == 0 || reply.address < base || reply.address + reply.len
            > base + block.len() ==> reply_bytes(block, base, reply).len() == 0,
{
}

/// A dotted version is read part by part: the first number is that of the
/// text before the first dot, the others are those of the text behind it,
/// moved on by one, and a version without a dot has one number and zeros.
pub proof fn law_versions_are_read_part_by_part(head: Seq<char>, rest: Seq<char>)
    requires
        forall|i: int| 0 <= i < head.len() ==> head[i] != '.',
    ensures
        version_components(head + seq!['.'] + rest) == seq![version_components(head)[0]]
            + version_components(rest).take(3),
        version_components(head) == seq![
            match parsed_u32(trim(head)) {
                Some(n) => n,
                None => 0,
            },
            0u32,
            0,
            0,
        ],
{
    lemma_split_cons(head, '.', rest);
    let whole = split(head + seq!['.'] + rest, '.');
    let tail = split(rest, '.');
    assert(whole[0] == head);
    assert forall|i: int| 0 <= i < tail.len() implies whole[i + 1] == tail[i] by {}
}

/// A version of one, two or three numbers reads back with zeros behind it,
/// and what follows a fourth number makes no difference.
#[verifier::spinoff_prover]
pub proof fn law_short_versions_read_back(a: u32, b: u32, c: u32, d: u32, rest: Seq<char>)
    ensures
        version_components(decimal(a as nat)) == seq![a, 0, 0, 0],
        version_components(decimal(a as nat) + seq!['.'] + decimal(b as nat)) == seq![a, b, 0, 0],
        version_components(
            decimal(a as nat) + seq!['.'] + (decimal(b as nat) + seq!['.'] + decimal(c as nat)),
        ) == seq![a, b, c, 0],
        version_components(
            decimal(a as nat) + seq!['.'] + (decimal(b as nat) + seq!['.'] + (decimal(c as nat)
                + seq!['.'] + (decimal(d as nat) + seq!['.'] + rest))),
        ) == seq![a, b, c, d],
{
    lemma_one_number(a);
    lemma_two_numbers(a, b);
    lemma_three_numbers(a, b, c);
    lemma_four_numbers(a, b, c, d, rest);
}

proof fn lemma_one_number(a: u32)
    ensures
        version_components(decimal(a as nat)) == seq![a, 0, 0, 0],
{
    lemma_number_then(a, Seq::empty());
}

proof fn lemma_two_numbers(a: u32, b: u32)
    ensures
        version_components(decimal(a as nat) + seq!['.'] + decimal(b as nat)) == seq![a, b, 0, 0],
{
    lemma_one_number(b);
    lemma_number_then(a, decimal(b as nat));
}

proof fn lemma_three_numbers(a: u32, b: u32, c: u32)
    ensures
        version_components(
            decimal(a as nat) + seq!['.'] + (decimal(b as nat) + seq!['.'] + decimal(c as nat)),
        ) == seq![a, b, c, 0],
{
    lemma_two_numbers(b, c);
    lemma_number_then(a, decimal(b as nat) + seq!['.'] + decimal(c as nat));
}

proof fn lemma_four_numbers(a: u32, b: u32, c: u32, d: u32, rest: Seq<char>)
    ensures
        version_components(
            decimal(a as nat) + seq!['.'] + (decimal(b as nat) + seq!['.'] + (decimal(c as nat)
                + seq!['.'] + (decimal(d as nat) + seq!['.'] + rest))),
        ) == seq![a, b, c, d],
{
    let r3 = decimal(d as nat) + seq!['.'] + rest;
    let r2 = decimal(c as nat) + seq!['.'] + r3;
    let r1 = decimal(b as nat) + seq!['.'] + r2;
    lemma_number_then(d, rest);
    lemma_number_then(c, r3);
    lemma_number_then(b, r2);
    lemma_number_then(a, r1);
    let first = version_components(decimal(a as nat) + seq!['.'] + r1);
    assert(first[0] == a);
    assert(first[1] == b);
    assert(first[2] == c);
    assert(first[3] == d);
    assert(first.len() == 4);
}

proof fn lemma_number_then(n: u32, rest: Seq<char>)
    ensures
        version_components(decimal(n as nat)) == seq![n, 0, 0, 0],
        version_components(decimal(n as nat) + seq!['.'] + rest) == seq![
            n,
            version_components(rest)[0],
            version_components(rest)[1],
            version_components(rest)[2],
        ],
{
    lemma_number_piece(n);
    law_parse_decimal(n);
    law_versions_are_read_part_by_part(decimal(n as nat), rest);
}

/// The fixed part is there exactly where the block is long enough and starts
/// with the signature, and its versions are the half-words that follow.
#[verifier::spinoff_prover]
pub proof fn law_fixed_part_is_read(block: Seq<u8>)
    ensures
        fixed_part(block) is Some <==> (block.len() >= 52 && block[0] == 0xBD && block[1] == 0x04
            && block[2] == 0xEF && block[3] == 0xFE),
        fixed_part(block) matches Some(f) ==> {
            &&& f.file_version == seq![
                (block[10] + 256 * block[11]) as u32,
                (block[8] + 256 * block[9]) as u32,
                (block[14] + 256 * block[15]) as u32,
                (block[12] + 256 * block[13]) as u32,
            ]
            &&& f.product_version == seq![
                (block[18] + 256 * block[19]) as u32,
                (block[16] + 256 * block[17]) as u32,
                (block[22] + 256 * block[23]) as u32,
                (block[20] + 256 * block[21]) as u32,
            ]
            &&& forall|n: u32|
                n == block[36] + 256 * block[37] + 65536 * block[38] + 16777216 * block[39]
                    ==> f.file_type == #[trigger] file_type_text(n)
            &&& forall|n: u32, m: u32|
                n == block[36] + 256 * block[37] + 65536 * block[38] + 16777216 * block[39] && m
                    == block[40] + 256 * block[41] + 65536 * block[42] + 16777216 * block[43]
                    ==> f.file_subtype == #[trigger] file_subtype_text(n, m)
            &&& forall|n: u32|
                n == block[32] + 256 * block[33] + 65536 * block[34] + 16777216 * block[35]
                    ==> f.file_os == #[trigger] file_os_text(n)
            &&& forall|n: u32|
                n == block[28] + 256 * block[29] + 65536 * block[30] + 16777216 * block[31]
                    ==> f.file_flags == #[trigger] file_flags_text(n)
        },
{
    if block.len() >= 52 {
        lemma_halves(block, 0);
        lemma_halves(block, 8);
        lemma_halves(block, 12);
        lemma_halves(block, 16);
        lemma_halves(block, 20);
        lemma_signature(block);
    }
}

proof fn lemma_halves(block: Seq<u8>, off: int)
    requires
        0 <= off,
        off + 4 <= block.len(),
    ensures
        le32(block, off) is Some,
        le32(block, off)->0 % 0x1_0000 == block[off] + 256 * block[off + 1],
        le32(block, off)->0 / 0x1_0000 == block[off + 2] + 256 * block[off + 3],
{
}

proof fn lemma_signature(block: Seq<u8>)
    requires
        block.len() >= 4,
    ensures
        le32(block, 0) == Some(0xFEEF_04BDu32) <==> (block[0] == 0xBD && block[1] == 0x04
            && block[2] == 0xEF && block[3] == 0xFE),
{
    lemma_halves(block, 0);
    let v = le32(block, 0)->0;
    if v == 0xFEEF_04BDu32 {
        assert(v % 0x1_0000 == 0x04BD && v / 0x1_0000 == 0xFEEF);
    }
}

/// Every file type has one name, and what is none of them is unknown.
pub proof fn law_file_types_have_names(t: u32)
    ensures
        t == 1 ==> file_type_text(t) == "Application"@,
        t == 2 ==> file_type_text(t) == "DLL"@,
        t == 3 ==> file_type_text(t) == "Driver"@,
        t == 4 ==> file_type_text(t) == "Font"@,
        t == 5 ==> file_type_text(t) == "VirtualDevice"@,
        t == 7 ==> file_type_text(t) == "StaticLibrary"@,
        t == 0 || t == 6 || t > 7 ==> file_type_text(t) == "Unknown"@,
{
}

/// Subtypes have names only for drivers and fonts; for any other type they
/// are numbers, and zero is unknown.
pub proof fn law_subtypes_have_names(t: u32, s: u32)
    ensures
        t == 3 && (s == 0 || s > 12) ==> file_subtype_text(t, s) == "Unknown"@,
        t == 3 && s == 1 ==> file_subtype_text(t, s) == "Printer"@,
        t == 3 && s == 2 ==> file_subtype_text(t, s) == "Keyboard"@,
        t == 3 && s == 3 ==> file_subtype_text(t, s) == "Language"@,
        t == 3 && s == 4 ==> file_subtype_text(t, s) == "Display"@,
        t == 3 && s == 5 ==> file_subtype_text(t, s) == "Mouse"@,
        t == 3 && s == 6 ==> file_subtype_text(t, s) == "Network"@,
        t == 3 && s == 7 ==> file_subtype_text(t, s) == "System"@,
        t == 3 && s == 8 ==> file_subtype_text(t, s) == "Installable"@,
        t == 3 && s == 9 ==> file_subtype_text(t, s) == "Sound"@,
        t == 3 && s == 10 ==> file_subtype_text(t, s) == "Comm"@,
        t == 3 && s == 11 ==> file_subtype_text(t, s) == "InputMethod"@,
        t == 3 && s == 12 ==> file_subtype_text(t, s) == "VersionedPrinter"@,
        t == 4 && (s == 0 || s > 3) ==> file_subtype_text(t, s) == "Unknown"@,
        t == 4 && s == 1 ==> file_subtype_text(t, s) == "Raster"@,
        t == 4 && s == 2 ==> file_subtype_text(t, s) == "Vector"@,
        t == 4 && s == 3 ==> file_subtype_text(t, s) == "TrueType"@,
        t != 3 && t != 4 && s == 0 ==> file_subtype_text(t, s) == "Unknown"@,
        t != 3 && t != 4 && s != 0 ==> file_subtype_text(t, s) == decimal(s as nat),
{
}

/// Every system has one name, by what stands in its upper and lower half, and
/// what is none of them is unknown.
pub proof fn law_systems_have_names(os: u32)
    ensures
        os == 0x40004 ==> file_os_text(os) == "WinNT32"@,
        os == 0x10004 ==> file_os_text(os) == "Win32"@,
        os == 0x10001 ==> file_os_text(os) == "Win16"@,
        os == 0x30003 ==> file_os_text(os) == "PM32"@,
        os == 0x20002 ==> file_os_text(os) == "PM16"@,
        os == 0x40000 ==> file_os_text(os) == "NT"@,
        os == 0x10000 ==> file_os_text(os) == "DOS"@,
        os == 0x20000 ==> file_os_text(os) == "OS216"@,
        os == 0x30000 ==> file_os_text(os) == "OS232"@,
        os == 0x50000 ==> file_os_text(os) == "WinCE"@,
        os % 0x10000 != 0 && os != 0x40004 && os != 0x10004 && os != 0x10001 && os != 0x30003 && os
            != 0x20002 ==> file_os_text(os) == "Unknown"@,
        os % 0x10000 == 0 && (os == 0 || os > 0x50000) ==> file_os_text(os) == "Unknown"@,
{
}

proof fn lemma_joined_push(list: Seq<Seq<char>>, name: Seq<char>)
    ensures
        joined(list.push(name), ',') == (if list.len() == 0 {
            name
        } else {
            joined(list, ',').push(',') + name
        }),
    decreases list.len(),
{
    let more = list.push(name);
    if list.len() == 1 {
        assert(more.skip(1) == seq![name]);
        assert(joined(more.skip(1), ',') == name);
        assert(list[0] + seq![','] + name == list[0].push(',') + name);
    } else if list.len() > 1 {
        assert(more.skip(1) == list.skip(1).push(name));
        lemma_joined_push(list.skip(1), name);
        let tail = joined(list.skip(1), ',');
        assert(list[0] + seq![','] + (tail.push(',') + name) == (list[0] + seq![','] + tail).push(
            ',',
        ) + name);
    }
}

proof fn lemma_flag_listed(list: Seq<Seq<char>>, flags: u32, flag: u32, name: Seq<char>)
    requires
        list.len() > 0 ==> joined(list, ',').len() > 0,
        name.len() > 0,
    ensures
        ({
            let more = list + (if flags & flag == flag {
                seq![name]
            } else {
                seq![]
            });
            &&& flag_added(joined(list, ','), flags, flag, name) == joined(more, ',')
            &&& more.len() > 0 ==> joined(more, ',').len() > 0
        }),
{
    lemma_joined_push(list, name);
    assert(list + seq![name] == list.push(name));
    assert(list + Seq::<Seq<char>>::empty() == list);
}

/// The flags that are set are listed by name, in a fixed order, with a comma
/// between them; other bits make no difference.
pub proof fn law_flags_are_listed(flags: u32)
    ensures
        file_flags_text(flags) == joined(
            (if flags & 1 == 1 {
                seq!["debug"@]
            } else {
                seq![]
            }) + (if flags & 2 == 2 {
                seq!["prerelease"@]
            } else {
                seq![]
            }) + (if flags & 4 == 4 {
                seq!["patched"@]
            } else {
                seq![]
            }) + (if flags & 8 == 8 {
                seq!["privatebuild"@]
            } else {
                seq![]
            }) + (if flags & 32 == 32 {
                seq!["specialbuild"@]
            } else {
                seq![]
            }) + (if flags & 16 == 16 {
                seq!["infoinferred"@]
            } else {
                seq![]
            }),
            ',',
        ),
{
    reveal_strlit("debug");
    reveal_strlit("prerelease");
    reveal_strlit("patched");
    reveal_strlit("privatebuild");
    reveal_strlit("specialbuild");
    reveal_strlit("infoinferred");
    let none = Seq::<Seq<char>>::empty();
    let a = if flags & 1 == 1 {
        seq!["debug"@]
    } else {
        seq![]
    };
    let b = a + (if flags & 2 == 2 {
        seq!["prerelease"@]
    } else {
        seq![]
    });
    let c = b + (if flags & 4 == 4 {
        seq!["patched"@]
    } else {
        seq![]
    });
    let d = c + (if flags & 8 == 8 {
        seq!["privatebuild"@]
    } else {
        seq![]
    });
    let e = d + (if flags & 32 == 32 {
        seq!["specialbuild"@]
    } else {
        seq![]
    });
    lemma_flag_listed(none, flags, 1, "debug"@);
    assert(none + a == a);
    lemma_flag_listed(a, flags, 2, "prerelease"@);
    lemma_flag_listed(b, flags, 4, "patched"@);
    lemma_flag_listed(c, flags, 8, "privatebuild"@);
    lemma_flag_listed(d, flags, 32, "specialbuild"@);
    lemma_flag_listed(e, flags, 16, "infoinferred"@);
}

/// The value of a lower-case hexadecimal digit.
pub open spec fn hex_value(c: char) -> int {
    if c <= '9' {
        c as u32 - '0' as u32
    } else {
        c as u32 - 'a' as u32 + 10
    }
}

#[verifier::spinoff_prover]
proof fn lemma_hex4(n: u16)
    ensures
        hex4(n).len() == 4,
        forall|i: int|
            0 <= i < 4 ==> ('0' <= #[trigger] hex4(n)[i] && hex4(n)[i] <= '9') || ('a' <= hex4(n)[i]
                && hex4(n)[i] <= 'f'),
        n == 4096 * hex_value(hex4(n)[0]) + 256 * hex_value(hex4(n)[1]) + 16 * hex_value(hex4(n)[2])
            + hex_value(hex4(n)[3]),
{
    let h = hex4(n);
    assert(n / 4096 < 16);
    lemma_hex_digit(n / 4096);
    lemma_hex_digit(n / 256 % 16);
    lemma_hex_digit(n / 16 % 16);
    lemma_hex_digit(n % 16);
    assert(h[0] == hex_digit(n / 4096));
    assert(h[1] == hex_digit(n / 256 % 16));
    assert(h[2] == hex_digit(n / 16 % 16));
    assert(h[3] == hex_digit(n % 16));
    assert(n == 4096 * (n / 4096) + 256 * (n / 256 % 16) + 16 * (n / 16 % 16) + n % 16)
        by (bit_vector);
}

proof fn lemma_hex_digit(d: u16)
    requires
        d < 16,
    ensures
        hex_value(hex_digit(d)) == d,
        ('0' <= hex_digit(d) && hex_digit(d) <= '9') || ('a' <= hex_digit(d) && hex_digit(d)
            <= 'f'),
{
}

/// The path of a string holds its language and its code page in four
/// hexadecimal digits each, from which they can be read back, and its key.
pub proof fn law_string_paths_read_back(lang: u16, code_page: u16, key: Seq<char>)
    ensures
        ({
            let path = string_path(lang, code_page, key);
            &&& path.len() == 25 + key.len()
            &&& path.take(16) == "\\StringFileInfo\\"@
            &&& forall|i: int|
                16 <= i < 24 ==> ('0' <= #[trigger] path[i] && path[i] <= '9') || ('a' <= path[i]
                    && path[i] <= 'f')
            &&& lang == 4096 * hex_value(path[16]) + 256 * hex_value(path[17]) + 16 * hex_value(
                path[18],
            ) + hex_value(path[19])
            &&& code_page == 4096 * hex_value(path[20]) + 256 * hex_value(path[21]) + 16
                * hex_value(path[22]) + hex_value(path[23])
            &&& path[24] == '\\'
            &&& path.skip(25) == key
        }),
{
    reveal_strlit("\\StringFileInfo\\");
    reveal_strlit("\\");
    lemma_hex4(lang);
    lemma_hex4(code_page);
    let head = "\\StringFileInfo\\"@;
    let a = hex4(lang);
    let b = hex4(code_page);
    let path = string_path(lang, code_page, key);
    assert(head.len() == 16);
    assert(path.take(16) == head);
    assert(path.skip(25) == key);
    assert(path.subrange(16, 20) == a);
    assert(path.subrange(20, 24) == b);
    assert forall|i: int| 0 <= i < 4 implies path[16 + i] == #[trigger] a[i] by {
        assert(path.subrange(16, 20)[i] == path[16 + i]);
    }
    assert forall|i: int| 0 <= i < 4 implies path[20 + i] == #[trigger] b[i] by {
        assert(path.subrange(20, 24)[i] == path[20 + i]);
    }
    assert forall|i: int| 16 <= i < 24 implies ('0' <= #[trigger] path[i] && path[i] <= '9') || (
    'a' <= path[i] && path[i] <= 'f') by {
        if i < 20 {
            assert(path[i] == a[i - 16]);
        } else {
            assert(path[i] == b[i - 20]);
        }
    }
}

/// The translations are the pairs of half-words of the table, in order; a
/// table without a whole pair stands for English and Unicode.
pub proof fn law_translations_are_read(table: Seq<u8>)
    ensures
        table.len() >= 4 ==> translation_pairs(table).len() == table.len() / 4,
        table.len() >= 4 ==> forall|i: int|
            0 <= i < table.len() / 4 ==> #[trigger] translation_pairs(table)[i] == (
                (table[4 * i] + 256 * table[4 * i + 1]) as u16,
                (table[4 * i + 2] + 256 * table[4 * i + 3]) as u16,
            ),
        table.len() < 4 ==> translation_pairs(table) == seq![(0x0409u16, 0x04B0u16)],
{
}

proof fn lemma_keys_differ(i: int, j: int)
    requires
        0 <= i < 12,
        0 <= j < 12,
        string_keys()[i] == string_keys()[j],
    ensures
        i == j,
{
    reveal_strlit("ProductName");
    reveal_strlit("InternalName");
    reveal_strlit("OriginalFilename");
    reveal_strlit("FileVersion");
    reveal_strlit("ProductVersion");
    reveal_strlit("CompanyName");
    reveal_strlit("LegalCopyright");
    reveal_strlit("LegalTrademarks");
    reveal_strlit("FileDescription");
    reveal_strlit("Comments");
    reveal_strlit("PrivateBuild");
    reveal_strlit("SpecialBuild");
    let a = string_keys()[i];
    let b = string_keys()[j];
    assert(a.len() == b.len());
    assert(a[0] == b[0]);
}

/// The string that the information holds at the place of a key, by the order
/// of the keys.
pub open spec fn string_in_place(info: InfoView, k: int) -> Seq<char> {
    if k == 0 {
        info.product_name
    } else if k == 1 {
        info.internal_name
    } else if k == 2 {
        info.original_filename
    } else if k == 3 {
        info.file_version
    } else if k == 4 {
        info.product_version
    } else if k == 5 {
        info.company_name
    } else if k == 6 {
        info.legal_copyright
    } else if k == 7 {
        info.legal_trademarks
    } else if k == 8 {
        info.file_description
    } else if k == 9 {
        info.comments
    } else if k == 10 {
        info.private_build
    } else {
        info.special_build
    }
}

proof fn lemma_string_in_place(info: InfoView, k: int)
    requires
        0 <= k < 12,
    ensures
        string_of_key(info, string_keys()[k]) == Some(string_in_place(info, k)),
{
    let key = string_keys()[k];
    if key == string_keys()[0] {
        lemma_keys_differ(k, 0);
    } else if key == string_keys()[1] {
        lemma_keys_differ(k, 1);
    } else if key == string_keys()[2] {
        lemma_keys_differ(k, 2);
    } else if key == string_keys()[3] {
        lemma_keys_differ(k, 3);
    } else if key == string_keys()[4] {
        lemma_keys_differ(k, 4);
    } else if key == string_keys()[5] {
        lemma_keys_differ(k, 5);
    } else if key == string_keys()[6] {
        lemma_keys_differ(k, 6);
    } else if key == string_keys()[7] {
        lemma_keys_differ(k, 7);
    } else if key == string_keys()[8] {
        lemma_keys_differ(k, 8);
    } else if key == string_keys()[9] {
        lemma_keys_differ(k, 9);
    } else if key == string_keys()[10] {
        lemma_keys_differ(k, 10);
    }
}

/// Every string is asked for in every translation: the keys of one
/// translation after another, each with the path in which its language and
/// code page stand.
pub proof fn law_every_string_is_asked_for(pairs: Seq<(u16, u16)>, t: int, k: int)
    requires
        0 <= t < pairs.len(),
        0 <= k < 12,
    ensures
        all_requests(pairs).len() == 12 * pairs.len(),
        all_requests(pairs)[12 * t + k].1 == string_path(
            pairs[t].0,
            pairs[t].1,
            all_requests(pairs)[12 * t + k].0,
        ),
        all_requests(pairs)[12 * t + k].0 == seq![
            "ProductName"@,
            "InternalName"@,
            "OriginalFilename"@,
            "FileVersion"@,
            "ProductVersion"@,
            "CompanyName"@,
            "LegalCopyright"@,
            "LegalTrademarks"@,
            "FileDescription"@,
            "Comments"@,
            "PrivateBuild"@,
            "SpecialBuild"@,
        ][k],
{
    assert((12 * t + k) % 12 == k && (12 * t + k) / 12 == t);
}

/// A version resource fills the information: each string comes from the last
/// translation that answers for it, stays as it was where none does, the
/// fixed part comes from its block, and the architecture is not touched.
pub proof fn law_resources_fill_the_information(
    info: InfoView,
    table: Seq<u8>,
    values: Seq<Option<Seq<char>>>,
    fixed: Seq<u8>,
    t: int,
    k: int,
)
    requires
        values.len() == 12 * translation_pairs(table).len(),
        0 <= k < 12,
        -1 <= t < translation_pairs(table).len(),
        t >= 0 ==> values[12 * t + k] is Some,
        forall|u: int|
            t < u < translation_pairs(table).len() ==> (#[trigger] values[12 * u + k]) is None,
    ensures
        ({
            let r = resource_info(info, table, values, fixed);
            &&& t >= 0 ==> string_in_place(r, k) == values[12 * t + k]->0
            &&& t < 0 ==> string_in_place(r, k) == string_in_place(info, k)
            &&& r.arch == info.arch
            &&& r.fixed == (if fixed_part(fixed) is Some {
                fixed_part(fixed)
            } else {
                info.fixed
            })
        }),
{
    let pairs = translation_pairs(table);
    let requests = all_requests(pairs);
    let n = requests.len() as int;
    let key = string_keys()[k];
    let filled = strings_set(info, requests, values, n);
    let r = resource_info(info, table, values, fixed);
    lemma_string_in_place(info, k);
    lemma_string_in_place(r, k);
    lemma_strings_leave_the_rest(info, requests, values, n);
    assert(string_of_key(r, key) == string_of_key(filled, key));
    assert forall|i: int|
        0 <= i < n && 12 * t + k < i && requests[i].0 == key implies (#[trigger] values[i])
        is None by {
        lemma_keys_differ(i % 12, k);
        let u = i / 12;
        assert(i == 12 * u + k);
        assert(values[12 * u + k] is None);
    }
    if t >= 0 {
        let at = 12 * t + k;
        assert(at % 12 == k && at / 12 == t);
        assert(requests[at].0 == key);
        law_last_answer_wins(info, requests, values, n, at);
    } else {
        law_unanswered_strings_stay(info, requests, values, n, key);
    }
}

proof fn lemma_strings_leave_the_rest(
    info: InfoView,
    requests: Seq<(Seq<char>, Seq<char>)>,
    values: Seq<Option<Seq<char>>>,
    n: int,
)
    ensures
        strings_set(info, requests, values, n).arch == info.arch,
        strings_set(info, requests, values, n).fixed == info.fixed,
    decreases n,
{
    if n > 0 {
        lemma_strings_leave_the_rest(info, requests, values, n - 1);
    }
}

/// What a probe of an x86 shell found is its architecture; an unknown payload
/// leaves none.
pub proof fn law_probes_decide_for_shells(info: InfoView, arch: Seq<char>)
    requires
        info.arch == "x86"@,
    ensures
        probed(info, ContentProbeView::Found(arch)).arch == arch,
        probed(info, ContentProbeView::Unknown).arch.len() == 0,
        probed(info, ContentProbeView::Inconclusive).arch == info.arch,
{
}

/// A binary type names one of four architectures; any other, or none, is
/// unknown.
pub proof fn law_binary_types_name_architectures(t: u32)
    ensures
        t == 6 ==> binary_type_token(Some(t)) == "x64"@,
        t == 0 ==> binary_type_token(Some(t)) == "x86"@,
        t == 10 ==> binary_type_token(Some(t)) == "arm64"@,
        t == 12 ==> binary_type_token(Some(t)) == "arm"@,
        t != 6 && t != 0 && t != 10 && t != 12 ==> binary_type_token(Some(t)) == "unknown"@,
        binary_type_token(None) == "unknown"@,
{
}

/// A file may be a package by one of three extensions, in either case, or by
/// the first bytes of a compound document, and by nothing else.
pub proof fn law_packages_are_told(extension: Seq<char>, magic: Option<[u8; 8]>)
    ensures
        msi_like(extension, magic) <==> (lower(extension) == "msi"@ || lower(extension) == "mst"@
            || lower(extension) == "msm"@ || (magic matches Some(m) && m[0] == 0xD0 && m[1] == 0xCF
            && m[2] == 0x11 && m[3] == 0xE0 && m[4] == 0xA1 && m[5] == 0xB1 && m[6] == 0x1A && m[7]
            == 0xE1)),
{
    if let Some(m) = magic {
        if m[0] == 0xD0 && m[1] == 0xCF && m[2] == 0x11 && m[3] == 0xE0 && m[4] == 0xA1 && m[5]
            == 0xB1 && m[6] == 0x1A && m[7] == 0xE1 {
            assert(m@ == OLE_MAGIC@);
        }
    }
}

/// What the executable reader gives is the result, and where it fails, what
/// the package reader gives of a file that looks like a package is.
pub proof fn law_readers_are_believed(
    info: InfoView,
    error: Seq<char>,
    extension: Seq<char>,
    magic: Option<[u8; 8]>,
    msi: Option<Result<InfoView, Seq<char>>>,
)
    ensures
        file_result(Ok(info), extension, magic, msi) == Ok::<InfoView, Seq<char>>(info),
        msi_like(extension, magic) ==> file_result(
            Err(error),
            extension,
            magic,
            Some(Ok(info)),
        ) == Ok::<InfoView, Seq<char>>(info),
        !msi_like(extension, magic) ==> file_result(Err(error), extension, magic, msi) == Err::<
            InfoView,
            Seq<char>,
        >(error),
{
}

/// A string of a version resource is read unit by unit, whatever units it has:
/// those in front of the first null, or of the end of the block, make the
/// text, of which the white space at its ends is taken off.
pub proof fn law_resource_units_are_read(block: Seq<u8>, off: int, units: Seq<u16>)
    requires
        0 <= off,
        off + 2 * units.len() <= block.len(),
        forall|i: int|
            0 <= i < units.len() ==> block[off + 2 * i] + 256 * block[off + 2 * i + 1]
                == #[trigger] units[i],
        forall|i: int| 0 <= i < units.len() ==> #[trigger] units[i] != 0,
        ({
            let end = off + 2 * units.len();
            end + 2 <= block.len() ==> block[end] == 0 && block[end + 1] == 0
        }),
    ensures
        trim(decode(units)).len() > 0 ==> string_at(block, off) == Some(trim(decode(units))),
        trim(decode(units)).len() == 0 ==> string_at(block, off) is None,
{
    let all = units_from(block, off);
    let n = units.len() as int;
    lemma_units_of_block(block, off, units);
    if all.len() > n {
        assert(all[n] == 0);
        let rest = all.skip(n + 1);
        assert(all == units + seq![0u16] + rest);
        law_null_ends_a_text(units, rest);
    } else {
        assert(all == units);
        law_null_ends_a_text(units, Seq::empty());
    }
}

} // verus!
