//! File name patterns: text with placeholders in braces.
use crate::path::{file_name_of, file_stem, stem_of};
use crate::text::{
    chars_of, decimal, decimal_text, find, find_char, is_empty, lemma_decimal, lemma_find,
    lemma_find_after, lemma_find_is, lemma_split_cons, push_chars, push_text, same_text, split,
    split_text, string_of, to_upper, trim, trim_text, upper,
};
use crate::versioninfo::{
    dotted, law_dotted_version_round_trip, lemma_dotted_pieces, version_components, InfoView,
    VersionInfo,
};
use vstd::prelude::*;
use vstd::slice::slice_subrange;

verus! {

/// The pattern that serves where none is given, or where the given one leads
/// to a name that is too long.
pub const DEFAULT_PATTERN: &'static str = "{Name}_{Arch}_{FileVer1}.{FileVer2}.{FileVer3}.{FileVer4}";

/// What stands for a value that the file does not have.
pub const MISSING: &'static str = "\u{FFFD}";

/// What a placeholder stands for. The parts of a version count from one.
#[derive(Debug, Clone, Copy, PartialEq, Eq, Structural)]
pub enum Field {
    Name,
    Arch,
    FileVersion,
    ProductVersion,
    FilePart(usize),
    ProductPart(usize),
    Description,
    Company,
    Copyright,
    Trademarks,
    Comments,
    InternalName,
    OriginalName,
    PrivateBuild,
    SpecialBuild,
    FileType,
    FileSubtype,
    FileOs,
    Flags,
}

/// The field of a placeholder, by its name in upper case. Some have a short
/// name besides.
pub open spec fn placeholder(token: Seq<char>) -> Option<Field> {
    if token == "NAME"@ {
        Some(Field::Name)
    } else if token == "ARCH"@ {
        Some(Field::Arch)
    } else if token == "FILEVER"@ {
        Some(Field::FileVersion)
    } else if token == "PRODUCTVER"@ || token == "PRODVER"@ || token == "P"@ {
        Some(Field::ProductVersion)
    } else if token == "FILEVER1"@ || token == "VER-1"@ {
        Some(Field::FilePart(1))
    } else if token == "FILEVER2"@ || token == "VER-2"@ {
        Some(Field::FilePart(2))
    } else if token == "FILEVER3"@ || token == "VER-3"@ {
        Some(Field::FilePart(3))
    } else if token == "FILEVER4"@ || token == "VER-4"@ {
        Some(Field::FilePart(4))
    } else if token == "PRODUCTVER1"@ || token == "PVER-1"@ {
        Some(Field::ProductPart(1))
    } else if token == "PRODUCTVER2"@ || token == "PVER-2"@ {
        Some(Field::ProductPart(2))
    } else if token == "PRODUCTVER3"@ || token == "PVER-3"@ {
        Some(Field::ProductPart(3))
    } else if token == "PRODUCTVER4"@ || token == "PVER-4"@ {
        Some(Field::ProductPart(4))
    } else if token == "DESCRIPTION"@ || token == "FILEDESCRIPTION"@ {
        Some(Field::Description)
    } else if token == "COMPANY"@ {
        Some(Field::Company)
    } else if token == "COPYRIGHT"@ {
        Some(Field::Copyright)
    } else if token == "TRADEMARKS"@ {
        Some(Field::Trademarks)
    } else if token == "COMMENTS"@ {
        Some(Field::Comments)
    } else if token == "INTERNALNAME"@ || token == "INTERNAL"@ {
        Some(Field::InternalName)
    } else if token == "ORIGINALNAME"@ || token == "ORIGINAL"@ {
        Some(Field::OriginalName)
    } else if token == "PRIVATEBUILD"@ || token == "BUILD"@ {
        Some(Field::PrivateBuild)
    } else if token == "SPECIALBUILD"@ || token == "SPECIAL"@ {
        Some(Field::SpecialBuild)
    } else if token == "FILETYPE"@ || token == "TYPE"@ {
        Some(Field::FileType)
    } else if token == "FILESUBTYPE"@ || token == "SUBTYPE"@ {
        Some(Field::FileSubtype)
    } else if token == "FILEOS"@ || token == "OS"@ {
        Some(Field::FileOs)
    } else if token == "FLAGS"@ {
        Some(Field::Flags)
    } else {
        None
    }
}

/// The field of a placeholder, by its name in upper case.
pub fn field_of(token: &[char]) -> (field: Option<Field>)
    ensures
        field == placeholder(token@),
{
    if same_text(token, "NAME") {
        Some(Field::Name)
    } else if same_text(token, "ARCH") {
        Some(Field::Arch)
    } else if same_text(token, "FILEVER") {
        Some(Field::FileVersion)
    } else if same_text(token, "PRODUCTVER") || same_text(token, "PRODVER")
        || same_text(token, "P") {
        Some(Field::ProductVersion)
    } else if same_text(token, "FILEVER1") || same_text(token, "VER-1") {
        Some(Field::FilePart(1))
    } else if same_text(token, "FILEVER2") || same_text(token, "VER-2") {
        Some(Field::FilePart(2))
    } else if same_text(token, "FILEVER3") || same_text(token, "VER-3") {
        Some(Field::FilePart(3))
    } else if same_text(token, "FILEVER4") || same_text(token, "VER-4") {
        Some(Field::FilePart(4))
    } else if same_text(token, "PRODUCTVER1") || same_text(token, "PVER-1") {
        Some(Field::ProductPart(1))
    } else if same_text(token, "PRODUCTVER2") || same_text(token, "PVER-2") {
        Some(Field::ProductPart(2))
    } else if same_text(token, "PRODUCTVER3") || same_text(token, "PVER-3") {
        Some(Field::ProductPart(3))
    } else if same_text(token, "PRODUCTVER4") || same_text(token, "PVER-4") {
        Some(Field::ProductPart(4))
    } else if same_text(token, "DESCRIPTION") || same_text(token, "FILEDESCRIPTION") {
        Some(Field::Description)
    } else if same_text(token, "COMPANY") {
        Some(Field::Company)
    } else if same_text(token, "COPYRIGHT") {
        Some(Field::Copyright)
    } else if same_text(token, "TRADEMARKS") {
        Some(Field::Trademarks)
    } else if same_text(token, "COMMENTS") {
        Some(Field::Comments)
    } else if same_text(token, "INTERNALNAME") || same_text(token, "INTERNAL") {
        Some(Field::InternalName)
    } else if same_text(token, "ORIGINALNAME") || same_text(token, "ORIGINAL") {
        Some(Field::OriginalName)
    } else if same_text(token, "PRIVATEBUILD") || same_text(token, "BUILD") {
        Some(Field::PrivateBuild)
    } else if same_text(token, "SPECIALBUILD") || same_text(token, "SPECIAL") {
        Some(Field::SpecialBuild)
    } else if same_text(token, "FILETYPE") || same_text(token, "TYPE") {
        Some(Field::FileType)
    } else if same_text(token, "FILESUBTYPE") || same_text(token, "SUBTYPE") {
        Some(Field::FileSubtype)
    } else if same_text(token, "FILEOS") || same_text(token, "OS") {
        Some(Field::FileOs)
    } else if same_text(token, "FLAGS") {
        Some(Field::Flags)
    } else {
        None
    }
}

// ---------------------------------------------------------------------
// Values
// ---------------------------------------------------------------------

/// A piece of a version text between its dots, without white space around
/// it; empty where there are fewer pieces. Pieces count from one.
pub open spec fn part_of(version: Seq<char>, index: int) -> Seq<char> {
    let pieces = split(version, '.');
    if 1 <= index <= pieces.len() {
        trim(pieces[index - 1])
    } else {
        Seq::empty()
    }
}

/// A piece of a version text between its dots, counted from one.
pub fn version_part(version: &str, index: usize) -> (part: String)
    requires
        index >= 1,
    ensures
        part@ == part_of(version@, index as int),
{
    let chars = chars_of(version);
    let pieces = split_text(chars.as_slice(), '.');
    let ghost views = pieces@.map_values(|p: Vec<char>| p@);
    assert(views.len() == pieces@.len());
    if index > pieces.len() {
        return String::new();
    }
    assert(views[index - 1] == pieces@[index - 1]@);
    string_of(trim_text(pieces[index - 1].as_slice()).as_slice())
}

/// A component of a binary version, counted from one, in decimal.
pub open spec fn component_text(version: Seq<u32>, index: int) -> Seq<char> {
    if 1 <= index <= version.len() {
        decimal(version[index - 1] as nat)
    } else {
        Seq::empty()
    }
}

fn component(version: &[u32; 4], index: usize) -> (text: String)
    ensures
        text@ == component_text(version@, index as int),
{
    if index >= 1 && index <= 4 {
        string_of(decimal_text(version[index - 1] as u128).as_slice())
    } else {
        String::new()
    }
}

/// The name for a file: that of its product, or else its own without the
/// extension.
pub open spec fn display_name(info: InfoView, original: Seq<char>) -> Seq<char> {
    if info.product_name.len() > 0 {
        info.product_name
    } else {
        match file_name_of(original) {
            Some(name) => stem_of(name),
            None => Seq::empty(),
        }
    }
}

/// The value of a field; empty where the file has none.
pub open spec fn field_text(field: Field, info: InfoView, original: Seq<char>) -> Seq<char> {
    match field {
        Field::Name => display_name(info, original),
        Field::FilePart(i) => match info.fixed {
            Some(fixed) => component_text(fixed.file_version, i as int),
            None => part_of(info.file_version, i as int),
        },
        Field::ProductPart(i) => match info.fixed {
            Some(fixed) => component_text(fixed.product_version, i as int),
            None => Seq::empty(),
        },
        Field::Arch => info.arch,
        Field::FileVersion => info.file_version,
        Field::ProductVersion => info.product_version,
        Field::Description => info.file_description,
        Field::Company => info.company_name,
        Field::Copyright => info.legal_copyright,
        Field::Trademarks => info.legal_trademarks,
        Field::Comments => info.comments,
        Field::InternalName => info.internal_name,
        Field::OriginalName => info.original_filename,
        Field::PrivateBuild => info.private_build,
        Field::SpecialBuild => info.special_build,
        Field::FileType => match info.fixed {
            Some(fixed) => fixed.file_type,
            None => Seq::empty(),
        },
        Field::FileSubtype => match info.fixed {
            Some(fixed) => fixed.file_subtype,
            None => Seq::empty(),
        },
        Field::FileOs => match info.fixed {
            Some(fixed) => fixed.file_os,
            None => Seq::empty(),
        },
        Field::Flags => match info.fixed {
            Some(fixed) => fixed.file_flags,
            None => Seq::empty(),
        },
    }
}

fn field_value(field: Field, info: &VersionInfo, original: &str) -> (value: String)
    ensures
        value@ == field_text(field, info@, original@),
{
    match field {
        Field::Name => {
            if is_empty(info.product_name.as_str()) {
                file_stem(original)
            } else {
                info.product_name.clone()
            }
        },
        Field::FilePart(i) => match &info.fixed {
            Some(fixed) => component(&fixed.file_version, i),
            None => if i == 0 {
                String::new()
            } else {
                version_part(info.file_version.as_str(), i)
            },
        },
        Field::ProductPart(i) => match &info.fixed {
            Some(fixed) => component(&fixed.product_version, i),
            None => String::new(),
        },
        Field::Arch => info.arch.clone(),
        Field::FileVersion => info.file_version.clone(),
        Field::ProductVersion => info.product_version.clone(),
        Field::Description => info.file_description.clone(),
        Field::Company => info.company_name.clone(),
        Field::Copyright => info.legal_copyright.clone(),
        Field::Trademarks => info.legal_trademarks.clone(),
        Field::Comments => info.comments.clone(),
        Field::InternalName => info.internal_name.clone(),
        Field::OriginalName => info.original_filename.clone(),
        Field::PrivateBuild => info.private_build.clone(),
        Field::SpecialBuild => info.special_build.clone(),
        Field::FileType => match &info.fixed {
            Some(fixed) => fixed.file_type.clone(),
            None => String::new(),
        },
        Field::FileSubtype => match &info.fixed {
            Some(fixed) => fixed.file_subtype.clone(),
            None => String::new(),
        },
        Field::FileOs => match &info.fixed {
            Some(fixed) => fixed.file_os.clone(),
            None => String::new(),
        },
        Field::Flags => match &info.fixed {
            Some(fixed) => fixed.file_flags.clone(),
            None => String::new(),
        },
    }
}

/// A value, or the replacement character where it is empty.
pub open spec fn filled(value: Seq<char>) -> Seq<char> {
    if value.len() == 0 {
        MISSING@
    } else {
        value
    }
}

/// A value, or the replacement character where it is empty.
pub fn fill_missing(value: &str) -> (text: &str)
    ensures
        text@ == filled(value@),
{
    if is_empty(value) {
        MISSING
    } else {
        value
    }
}

// ---------------------------------------------------------------------
// Rendering
// ---------------------------------------------------------------------

/// What stands in place of a placeholder with the given name: the value of
/// its field, or the placeholder itself where the name is not known.
pub open spec fn expanded(token: Seq<char>, info: InfoView, original: Seq<char>) -> Seq<char> {
    match placeholder(upper(token)) {
        Some(field) => filled(field_text(field, info, original)),
        None => seq!['{'] + token + seq!['}'],
    }
}

/// A pattern with every placeholder expanded. A brace that nothing closes
/// stays, with what follows it.
pub open spec fn rendered(pattern: Seq<char>, info: InfoView, original: Seq<char>) -> Seq<char>
    decreases pattern.len(),
{
    let start = find(pattern, '{');
    let after = pattern.skip(start + 1);
    let end = find(after, '}');
    if 0 <= start < pattern.len() && 0 <= end < after.len() {
        pattern.take(start) + expanded(after.take(end), info, original) + rendered(
            after.skip(end + 1),
            info,
            original,
        )
    } else {
        pattern
    }
}

/// Expands the placeholders of a pattern, whose names may be in either case,
/// for a file with the given information and original name.
pub fn render_pattern(pattern: &str, info: &VersionInfo, original_name: &str) -> (out: String)
    ensures
        out@ == rendered(pattern@, info@, original_name@),
{
    let chars = chars_of(pattern);
    let mut out: Vec<char> = Vec::new();
    let mut at: usize = 0;
    assert(chars@.skip(0) == chars@);
    loop
        invariant_except_break
            at <= chars.len(),
            chars@ == pattern@,
            out@ + rendered(chars@.skip(at as int), info@, original_name@) == rendered(
                pattern@,
                info@,
                original_name@,
            ),
        ensures
            out@ == rendered(pattern@, info@, original_name@),
        decreases chars.len() - at,
    {
        let rest = slice_subrange(chars.as_slice(), at, chars.len());
        assert(rest@ == chars@.skip(at as int));
        let start = find_char(rest, '{');
        if start == rest.len() {
            push_chars(&mut out, rest);
            break;
        }
        let after = slice_subrange(rest, start + 1, rest.len());
        assert(after@ == rest@.skip(start + 1));
        let end = find_char(after, '}');
        if end == after.len() {
            push_chars(&mut out, rest);
            break;
        }
        let token = slice_subrange(after, 0, end);
        assert(token@ == after@.take(end as int));
        let ghost before = out@;
        push_chars(&mut out, slice_subrange(rest, 0, start));
        match field_of(to_upper(token).as_slice()) {
            Some(field) => {
                let value = field_value(field, info, original_name);
                push_text(&mut out, fill_missing(value.as_str()));
            },
            None => {
                out.push('{');
                push_chars(&mut out, token);
                out.push('}');
            },
        }
        proof {
            let value = expanded(token@, info@, original_name@);
            let tail = rendered(after@.skip(end + 1), info@, original_name@);
            assert(out@ == before + rest@.take(start as int) + value);
            assert(after@.skip(end + 1) == chars@.skip(at + start + end + 2));
            assert(out@ + tail == before + (rest@.take(start as int) + value + tail));
        }
        at = at + start + end + 2;
    }
    string_of(out.as_slice())
}

// ---------------------------------------------------------------------
// Laws
// ---------------------------------------------------------------------

/// A pattern without an opening brace is a plain file name.
pub proof fn law_plain_text_is_kept(pattern: Seq<char>, info: InfoView, original: Seq<char>)
    requires
        forall|i: int| 0 <= i < pattern.len() ==> pattern[i] != '{',
    ensures
        rendered(pattern, info, original) == pattern,
{
    lemma_find_is(pattern, '{', pattern.len() as int);
}

/// Whether behind every opening brace a closing one follows somewhere.
pub open spec fn closed_braces(pattern: Seq<char>) -> bool {
    forall|i: int|
        0 <= i < pattern.len() && pattern[i] == '{' ==> exists|j: int|
            i < j < pattern.len() && #[trigger] pattern[j] == '}'
}

/// Patterns are rendered piece by piece: what stands before a place that no
/// placeholder crosses does not depend on what stands behind it.
pub proof fn law_rendering_goes_piecewise(
    a: Seq<char>,
    b: Seq<char>,
    info: InfoView,
    original: Seq<char>,
)
    requires
        closed_braces(a),
    ensures
        rendered(a + b, info, original) == rendered(a, info, original) + rendered(
            b,
            info,
            original,
        ),
    decreases a.len(),
{
    lemma_find(a, '{');
    lemma_find(b, '{');
    let s = a + b;
    let start = find(a, '{');
    if start == a.len() {
        // Nothing to expand in front; the first brace is one of `b`.
        let at = find(b, '{');
        assert forall|i: int| 0 <= i < a.len() + at implies s[i] != '{' by {
            if i < a.len() {
                assert(s[i] == a[i]);
            } else {
                assert(s[i] == b[i - a.len()]);
            }
        }
        lemma_find_is(s, '{', a.len() + at);
        if at < b.len() {
            assert(s.skip(a.len() + at + 1) == b.skip(at + 1));
            assert(s.take(a.len() + at) == a + b.take(at));
            let after = b.skip(at + 1);
            let end = find(after, '}');
            if 0 <= end < after.len() {
                let value = expanded(after.take(end), info, original);
                let tail = rendered(after.skip(end + 1), info, original);
                assert((a + b.take(at)) + value + tail == a + (b.take(at) + value + tail));
            }
        }
    } else {
        let after = a.skip(start + 1);
        let j = choose|j: int| start < j < a.len() && #[trigger] a[j] == '}';
        lemma_find(after, '}');
        let end = find(after, '}');
        assert(after[j - start - 1] == '}');
        assert(end < after.len());
        assert forall|i: int| 0 <= i < start implies s[i] != '{' by {
            assert(s[i] == a[i]);
        }
        lemma_find_is(s, '{', start);
        let long = s.skip(start + 1);
        assert(long == after + b);
        assert forall|i: int| 0 <= i < end implies long[i] != '}' by {
            assert(long[i] == after[i]);
        }
        lemma_find_is(long, '}', end);
        let rest = after.skip(end + 1);
        assert(long.skip(end + 1) == rest + b);
        assert(long.take(end) == after.take(end));
        assert(s.take(start) == a.take(start));
        assert forall|i: int| 0 <= i < rest.len() && rest[i] == '{' implies exists|j: int|
            i < j < rest.len() && #[trigger] rest[j] == '}' by {
            let shift = start + end + 2;
            assert(a[i + shift] == rest[i]);
            let k = choose|k: int| i + shift < k < a.len() && #[trigger] a[k] == '}';
            assert(rest[k - shift] == '}');
        }
        law_rendering_goes_piecewise(rest, b, info, original);
        let head = a.take(start) + expanded(after.take(end), info, original);
        assert(head + (rendered(rest, info, original) + rendered(b, info, original)) == head
            + rendered(rest, info, original) + rendered(b, info, original));
    }
}

/// The placeholder with the given name.
pub open spec fn braced(token: Seq<char>) -> Seq<char> {
    seq!['{'] + token + seq!['}']
}

/// A placeholder on its own renders to what its name expands to.
pub proof fn law_placeholder_is_expanded(
    token: Seq<char>,
    info: InfoView,
    original: Seq<char>,
)
    requires
        forall|i: int| 0 <= i < token.len() ==> token[i] != '}',
    ensures
        rendered(braced(token), info, original) == expanded(token, info, original),
{
    let p = braced(token);
    lemma_find_is(p, '{', 0);
    let after = p.skip(1);
    assert(after == token + seq!['}'] + Seq::<char>::empty());
    lemma_find_after(token, '}', Seq::empty());
    assert(after.take(token.len() as int) == token);
    assert(after.skip(token.len() as int + 1) == Seq::<char>::empty());
    law_plain_text_is_kept(Seq::empty(), info, original);
    let value = expanded(token, info, original);
    assert(p.take(0) + value + Seq::<char>::empty() == value);
}

/// The case of a placeholder makes no difference.
pub proof fn law_placeholders_ignore_case(
    a: Seq<char>,
    b: Seq<char>,
    info: InfoView,
    original: Seq<char>,
)
    requires
        upper(a) == upper(b),
        placeholder(upper(a)) is Some,
        forall|i: int| 0 <= i < a.len() ==> a[i] != '}',
        forall|i: int| 0 <= i < b.len() ==> b[i] != '}',
    ensures
        rendered(braced(a), info, original) == rendered(braced(b), info, original),
{
    law_placeholder_is_expanded(a, info, original);
    law_placeholder_is_expanded(b, info, original);
}

/// A placeholder that is not known is kept as it was written.
pub proof fn law_unknown_placeholders_are_kept(
    token: Seq<char>,
    info: InfoView,
    original: Seq<char>,
)
    requires
        placeholder(upper(token)) is None,
        forall|i: int| 0 <= i < token.len() ==> token[i] != '}',
    ensures
        rendered(braced(token), info, original) == braced(token),
{
    law_placeholder_is_expanded(token, info, original);
}

/// A known placeholder never vanishes: it renders to the value of its field,
/// or to the replacement character where the file has no such value.
pub proof fn law_known_placeholders_never_vanish(
    token: Seq<char>,
    info: InfoView,
    original: Seq<char>,
)
    requires
        placeholder(upper(token)) is Some,
        forall|i: int| 0 <= i < token.len() ==> token[i] != '}',
    ensures
        rendered(braced(token), info, original).len() > 0,
        field_text(placeholder(upper(token))->0, info, original).len() == 0 ==> rendered(
            braced(token),
            info,
            original,
        ) == MISSING@,
{
    law_placeholder_is_expanded(token, info, original);
    reveal_strlit("\u{FFFD}");
}

/// A dotted version renders alike, whether its parts come from the numbers
/// of the fixed part or from the text.
pub proof fn law_version_parts_agree(a: u32, b: u32, c: u32, d: u32, index: int)
    requires
        1 <= index <= 4,
    ensures
        part_of(dotted(a, b, c, d), index) == component_text(
            version_components(dotted(a, b, c, d)),
            index,
        ),
        part_of(dotted(a, b, c, d), index) == decimal(seq![a, b, c, d][index - 1] as nat),
{
    lemma_dotted_pieces(a, b, c, d);
    law_dotted_version_round_trip(a, b, c, d);
}

/// These are the names of the placeholders, in upper case, and there are no
/// others.
#[verifier::rlimit(60)]
pub proof fn law_placeholders_have_these_names(t: Seq<char>)
    ensures
        placeholder(t) == Some(Field::Name) <==> (t == "NAME"@),
        placeholder(t) == Some(Field::Arch) <==> (t == "ARCH"@),
        placeholder(t) == Some(Field::FileVersion) <==> (t == "FILEVER"@),
        placeholder(t) == Some(Field::ProductVersion) <==> (t == "PRODUCTVER"@ || t == "PRODVER"@
            || t == "P"@),
        (placeholder(t) matches Some(Field::FilePart(i)) && i == 1) <==> (t == "FILEVER1"@
            || t == "VER-1"@),
        (placeholder(t) matches Some(Field::FilePart(i)) && i == 2) <==> (t == "FILEVER2"@
            || t == "VER-2"@),
        (placeholder(t) matches Some(Field::FilePart(i)) && i == 3) <==> (t == "FILEVER3"@
            || t == "VER-3"@),
        (placeholder(t) matches Some(Field::FilePart(i)) && i == 4) <==> (t == "FILEVER4"@
            || t == "VER-4"@),
        (placeholder(t) matches Some(Field::ProductPart(i)) && i == 1) <==> (t == "PRODUCTVER1"@
            || t == "PVER-1"@),
        (placeholder(t) matches Some(Field::ProductPart(i)) && i == 2) <==> (t == "PRODUCTVER2"@
            || t == "PVER-2"@),
        (placeholder(t) matches Some(Field::ProductPart(i)) && i == 3) <==> (t == "PRODUCTVER3"@
            || t == "PVER-3"@),
        (placeholder(t) matches Some(Field::ProductPart(i)) && i == 4) <==> (t == "PRODUCTVER4"@
            || t == "PVER-4"@),
        placeholder(t) == Some(Field::Description) <==> (t == "DESCRIPTION"@
            || t == "FILEDESCRIPTION"@),
        placeholder(t) == Some(Field::Company) <==> (t == "COMPANY"@),
        placeholder(t) == Some(Field::Copyright) <==> (t == "COPYRIGHT"@),
        placeholder(t) == Some(Field::Trademarks) <==> (t == "TRADEMARKS"@),
        placeholder(t) == Some(Field::Comments) <==> (t == "COMMENTS"@),
        placeholder(t) == Some(Field::InternalName) <==> (t == "INTERNALNAME"@ || t == "INTERNAL"@),
        placeholder(t) == Some(Field::OriginalName) <==> (t == "ORIGINALNAME"@ || t == "ORIGINAL"@),
        placeholder(t) == Some(Field::PrivateBuild) <==> (t == "PRIVATEBUILD"@ || t == "BUILD"@),
        placeholder(t) == Some(Field::SpecialBuild) <==> (t == "SPECIALBUILD"@ || t == "SPECIAL"@),
        placeholder(t) == Some(Field::FileType) <==> (t == "FILETYPE"@ || t == "TYPE"@),
        placeholder(t) == Some(Field::FileSubtype) <==> (t == "FILESUBTYPE"@ || t == "SUBTYPE"@),
        placeholder(t) == Some(Field::FileOs) <==> (t == "FILEOS"@ || t == "OS"@),
        placeholder(t) == Some(Field::Flags) <==> (t == "FLAGS"@),
{
    reveal_strlit("NAME");
    reveal_strlit("ARCH");
    reveal_strlit("FILEVER");
    reveal_strlit("PRODUCTVER");
    reveal_strlit("PRODVER");
    reveal_strlit("P");
    reveal_strlit("FILEVER1");
    reveal_strlit("VER-1");
    reveal_strlit("FILEVER2");
    reveal_strlit("VER-2");
    reveal_strlit("FILEVER3");
    reveal_strlit("VER-3");
    reveal_strlit("FILEVER4");
    reveal_strlit("VER-4");
    reveal_strlit("PRODUCTVER1");
    reveal_strlit("PVER-1");
    reveal_strlit("PRODUCTVER2");
    reveal_strlit("PVER-2");
    reveal_strlit("PRODUCTVER3");
    reveal_strlit("PVER-3");
    reveal_strlit("PRODUCTVER4");
    reveal_strlit("PVER-4");
    reveal_strlit("DESCRIPTION");
    reveal_strlit("FILEDESCRIPTION");
    reveal_strlit("COMPANY");
    reveal_strlit("COPYRIGHT");
    reveal_strlit("TRADEMARKS");
    reveal_strlit("COMMENTS");
    reveal_strlit("INTERNALNAME");
    reveal_strlit("INTERNAL");
    reveal_strlit("ORIGINALNAME");
    reveal_strlit("ORIGINAL");
    reveal_strlit("PRIVATEBUILD");
    reveal_strlit("BUILD");
    reveal_strlit("SPECIALBUILD");
    reveal_strlit("SPECIAL");
    reveal_strlit("FILETYPE");
    reveal_strlit("TYPE");
    reveal_strlit("FILESUBTYPE");
    reveal_strlit("SUBTYPE");
    reveal_strlit("FILEOS");
    reveal_strlit("OS");
    reveal_strlit("FLAGS");
    assert("NAME"@.len() == 4);
    assert("ARCH"@.len() == 4);
    assert("FILEVER"@.len() == 7);
    assert("PRODUCTVER"@.len() == 10);
    assert("PRODVER"@.len() == 7);
    assert("P"@.len() == 1);
    assert("FILEVER1"@.len() == 8);
    assert("VER-1"@.len() == 5);
    assert("FILEVER2"@.len() == 8);
    assert("VER-2"@.len() == 5);
    assert("FILEVER3"@.len() == 8);
    assert("VER-3"@.len() == 5);
    assert("FILEVER4"@.len() == 8);
    assert("VER-4"@.len() == 5);
    assert("PRODUCTVER1"@.len() == 11);
    assert("PVER-1"@.len() == 6);
    assert("PRODUCTVER2"@.len() == 11);
    assert("PVER-2"@.len() == 6);
    assert("PRODUCTVER3"@.len() == 11);
    assert("PVER-3"@.len() == 6);
    assert("PRODUCTVER4"@.len() == 11);
    assert("PVER-4"@.len() == 6);
    assert("DESCRIPTION"@.len() == 11);
    assert("FILEDESCRIPTION"@.len() == 15);
    assert("COMPANY"@.len() == 7);
    assert("COPYRIGHT"@.len() == 9);
    assert("TRADEMARKS"@.len() == 10);
    assert("COMMENTS"@.len() == 8);
    assert("INTERNALNAME"@.len() == 12);
    assert("INTERNAL"@.len() == 8);
    assert("ORIGINALNAME"@.len() == 12);
    assert("ORIGINAL"@.len() == 8);
    assert("PRIVATEBUILD"@.len() == 12);
    assert("BUILD"@.len() == 5);
    assert("SPECIALBUILD"@.len() == 12);
    assert("SPECIAL"@.len() == 7);
    assert("FILETYPE"@.len() == 8);
    assert("TYPE"@.len() == 4);
    assert("FILESUBTYPE"@.len() == 11);
    assert("SUBTYPE"@.len() == 7);
    assert("FILEOS"@.len() == 6);
    assert("OS"@.len() == 2);
    assert("FLAGS"@.len() == 5);
    assert("NAME"@[0] != "ARCH"@[0]);
    assert("FILEVER"@[0] != "PRODVER"@[0]);
    assert("FILEVER1"@[7] != "FILEVER2"@[7]);
    assert("VER-1"@[4] != "VER-2"@[4]);
    assert("FILEVER1"@[7] != "FILEVER3"@[7]);
    assert("FILEVER2"@[7] != "FILEVER3"@[7]);
    assert("VER-1"@[4] != "VER-3"@[4]);
    assert("VER-2"@[4] != "VER-3"@[4]);
    assert("FILEVER1"@[7] != "FILEVER4"@[7]);
    assert("FILEVER2"@[7] != "FILEVER4"@[7]);
    assert("FILEVER3"@[7] != "FILEVER4"@[7]);
    assert("VER-1"@[4] != "VER-4"@[4]);
    assert("VER-2"@[4] != "VER-4"@[4]);
    assert("VER-3"@[4] != "VER-4"@[4]);
    assert("PRODUCTVER1"@[10] != "PRODUCTVER2"@[10]);
    assert("PVER-1"@[5] != "PVER-2"@[5]);
    assert("PRODUCTVER1"@[10] != "PRODUCTVER3"@[10]);
    assert("PRODUCTVER2"@[10] != "PRODUCTVER3"@[10]);
    assert("PVER-1"@[5] != "PVER-3"@[5]);
    assert("PVER-2"@[5] != "PVER-3"@[5]);
    assert("PRODUCTVER1"@[10] != "PRODUCTVER4"@[10]);
    assert("PRODUCTVER2"@[10] != "PRODUCTVER4"@[10]);
    assert("PRODUCTVER3"@[10] != "PRODUCTVER4"@[10]);
    assert("PVER-1"@[5] != "PVER-4"@[5]);
    assert("PVER-2"@[5] != "PVER-4"@[5]);
    assert("PVER-3"@[5] != "PVER-4"@[5]);
    assert("PRODUCTVER1"@[0] != "DESCRIPTION"@[0]);
    assert("PRODUCTVER2"@[0] != "DESCRIPTION"@[0]);
    assert("PRODUCTVER3"@[0] != "DESCRIPTION"@[0]);
    assert("PRODUCTVER4"@[0] != "DESCRIPTION"@[0]);
    assert("FILEVER"@[0] != "COMPANY"@[0]);
    assert("PRODVER"@[0] != "COMPANY"@[0]);
    assert("PRODUCTVER"@[0] != "TRADEMARKS"@[0]);
    assert("FILEVER1"@[0] != "COMMENTS"@[0]);
    assert("FILEVER2"@[0] != "COMMENTS"@[0]);
    assert("FILEVER3"@[0] != "COMMENTS"@[0]);
    assert("FILEVER4"@[0] != "COMMENTS"@[0]);
    assert("FILEVER1"@[0] != "INTERNAL"@[0]);
    assert("FILEVER2"@[0] != "INTERNAL"@[0]);
    assert("FILEVER3"@[0] != "INTERNAL"@[0]);
    assert("FILEVER4"@[0] != "INTERNAL"@[0]);
    assert("COMMENTS"@[0] != "INTERNAL"@[0]);
    assert("INTERNALNAME"@[0] != "ORIGINALNAME"@[0]);
    assert("FILEVER1"@[0] != "ORIGINAL"@[0]);
    assert("FILEVER2"@[0] != "ORIGINAL"@[0]);
    assert("FILEVER3"@[0] != "ORIGINAL"@[0]);
    assert("FILEVER4"@[0] != "ORIGINAL"@[0]);
    assert("COMMENTS"@[0] != "ORIGINAL"@[0]);
    assert("INTERNAL"@[0] != "ORIGINAL"@[0]);
    assert("INTERNALNAME"@[0] != "PRIVATEBUILD"@[0]);
    assert("ORIGINALNAME"@[0] != "PRIVATEBUILD"@[0]);
    assert("VER-1"@[0] != "BUILD"@[0]);
    assert("VER-2"@[0] != "BUILD"@[0]);
    assert("VER-3"@[0] != "BUILD"@[0]);
    assert("VER-4"@[0] != "BUILD"@[0]);
    assert("INTERNALNAME"@[0] != "SPECIALBUILD"@[0]);
    assert("ORIGINALNAME"@[0] != "SPECIALBUILD"@[0]);
    assert("PRIVATEBUILD"@[0] != "SPECIALBUILD"@[0]);
    assert("FILEVER"@[0] != "SPECIAL"@[0]);
    assert("PRODVER"@[0] != "SPECIAL"@[0]);
    assert("COMPANY"@[0] != "SPECIAL"@[0]);
    assert("FILEVER1"@[4] != "FILETYPE"@[4]);
    assert("FILEVER2"@[4] != "FILETYPE"@[4]);
    assert("FILEVER3"@[4] != "FILETYPE"@[4]);
    assert("FILEVER4"@[4] != "FILETYPE"@[4]);
    assert("COMMENTS"@[0] != "FILETYPE"@[0]);
    assert("INTERNAL"@[0] != "FILETYPE"@[0]);
    assert("ORIGINAL"@[0] != "FILETYPE"@[0]);
    assert("NAME"@[0] != "TYPE"@[0]);
    assert("ARCH"@[0] != "TYPE"@[0]);
    assert("PRODUCTVER1"@[0] != "FILESUBTYPE"@[0]);
    assert("PRODUCTVER2"@[0] != "FILESUBTYPE"@[0]);
    assert("PRODUCTVER3"@[0] != "FILESUBTYPE"@[0]);
    assert("PRODUCTVER4"@[0] != "FILESUBTYPE"@[0]);
    assert("DESCRIPTION"@[0] != "FILESUBTYPE"@[0]);
    assert("FILEVER"@[0] != "SUBTYPE"@[0]);
    assert("PRODVER"@[0] != "SUBTYPE"@[0]);
    assert("COMPANY"@[0] != "SUBTYPE"@[0]);
    assert("SPECIAL"@[1] != "SUBTYPE"@[1]);
    assert("PVER-1"@[0] != "FILEOS"@[0]);
    assert("PVER-2"@[0] != "FILEOS"@[0]);
    assert("PVER-3"@[0] != "FILEOS"@[0]);
    assert("PVER-4"@[0] != "FILEOS"@[0]);
    assert("VER-1"@[0] != "FLAGS"@[0]);
    assert("VER-2"@[0] != "FLAGS"@[0]);
    assert("VER-3"@[0] != "FLAGS"@[0]);
    assert("VER-4"@[0] != "FLAGS"@[0]);
    assert("BUILD"@[0] != "FLAGS"@[0]);
}

/// A value is shown as it is; only an empty one is shown as U+FFFD.
pub proof fn law_only_missing_values_are_replaced(value: Seq<char>)
    ensures
        value.len() > 0 ==> filled(value) == value,
        value.len() == 0 ==> filled(value) == "\u{FFFD}"@,
{
}

/// A placeholder shows the value of its field and nothing of any other. The
/// name is that of the product, or else that of the file without its
/// extension. The numbers of the fixed part, where there is one, are the parts
/// of the versions, whatever the version texts say; without it the file
/// version's come from its text and the product version's are missing.
pub proof fn law_placeholders_show_their_fields(
    token: Seq<char>,
    info: InfoView,
    original: Seq<char>,
)
    requires
        forall|i: int| 0 <= i < token.len() ==> token[i] != '}',
        placeholder(upper(token)) is Some,
        info.fixed matches Some(f) ==> f.file_version.len() == 4 && f.product_version.len() == 4,
    ensures
        ({
            let field = placeholder(upper(token))->0;
            let out = rendered(braced(token), info, original);
            &&& field == Field::Name && info.product_name.len() > 0 ==> out == info.product_name
            &&& field == Field::Name && info.product_name.len() == 0 && file_name_of(original)
                is Some ==> out == filled(stem_of(file_name_of(original)->0))
            &&& field == Field::Name && info.product_name.len() == 0 && file_name_of(original)
                is None ==> out == "\u{FFFD}"@
            &&& field == Field::Arch ==> out == filled(info.arch)
            &&& field == Field::FileVersion ==> out == filled(info.file_version)
            &&& field == Field::ProductVersion ==> out == filled(info.product_version)
            &&& field == Field::Description ==> out == filled(info.file_description)
            &&& field == Field::Company ==> out == filled(info.company_name)
            &&& field == Field::Copyright ==> out == filled(info.legal_copyright)
            &&& field == Field::Trademarks ==> out == filled(info.legal_trademarks)
            &&& field == Field::Comments ==> out == filled(info.comments)
            &&& field == Field::InternalName ==> out == filled(info.internal_name)
            &&& field == Field::OriginalName ==> out == filled(info.original_filename)
            &&& field == Field::PrivateBuild ==> out == filled(info.private_build)
            &&& field == Field::SpecialBuild ==> out == filled(info.special_build)
            &&& field == Field::FileType && info.fixed is Some ==> out == filled(
                info.fixed->0.file_type,
            )
            &&& field == Field::FileType && info.fixed is None ==> out == "\u{FFFD}"@
            &&& field == Field::FileSubtype && info.fixed is Some ==> out == filled(
                info.fixed->0.file_subtype,
            )
            &&& field == Field::FileSubtype && info.fixed is None ==> out == "\u{FFFD}"@
            &&& field == Field::FileOs && info.fixed is Some ==> out == filled(
                info.fixed->0.file_os,
            )
            &&& field == Field::FileOs && info.fixed is None ==> out == "\u{FFFD}"@
            &&& field == Field::Flags && info.fixed is Some ==> out == filled(
                info.fixed->0.file_flags,
            )
            &&& field == Field::Flags && info.fixed is None ==> out == "\u{FFFD}"@
            &&& field matches Field::FilePart(i) ==> 1 <= i <= 4 ==> {
                &&& info.fixed is Some ==> out == decimal(
                    info.fixed->0.file_version[i - 1] as nat,
                )
                &&& info.fixed is None ==> out == filled(part_of(info.file_version, i as int))
            }
            &&& field matches Field::ProductPart(i) ==> 1 <= i <= 4 ==> {
                &&& info.fixed is Some ==> out == decimal(
                    info.fixed->0.product_version[i - 1] as nat,
                )
                &&& info.fixed is None ==> out == "\u{FFFD}"@
            }
        }),
{
    law_placeholder_is_expanded(token, info, original);
    if let Some(f) = info.fixed {
        lemma_decimal(f.file_version[0] as nat);
        lemma_decimal(f.file_version[1] as nat);
        lemma_decimal(f.file_version[2] as nat);
        lemma_decimal(f.file_version[3] as nat);
        lemma_decimal(f.product_version[0] as nat);
        lemma_decimal(f.product_version[1] as nat);
        lemma_decimal(f.product_version[2] as nat);
        lemma_decimal(f.product_version[3] as nat);
    }
}

/// The parts of the file version are the numbers of the fixed part, whatever
/// the text of the version holds.
pub proof fn law_file_versions_come_from_the_fixed_part(
    token: Seq<char>,
    i: usize,
    info: InfoView,
    original: Seq<char>,
)
    requires
        1 <= i <= 4,
        upper(token) == seq!["FILEVER1"@, "FILEVER2"@, "FILEVER3"@, "FILEVER4"@][i - 1],
        info.fixed matches Some(f) && f.file_version.len() == 4 && f.product_version.len() == 4,
    ensures
        rendered(braced(token), info, original) == decimal(
            info.fixed->0.file_version[i - 1] as nat,
        ),
{
    reveal_strlit("FILEVER1");
    reveal_strlit("FILEVER2");
    reveal_strlit("FILEVER3");
    reveal_strlit("FILEVER4");
    law_placeholders_have_these_names(upper(token));
    assert(upper(token).len() == 8);
    assert forall|k: int| 0 <= k < token.len() implies token[k] != '}' by {
        if token[k] == '}' {
            assert(upper(token)[k] == '}');
            assert(upper(token)[0] == 'F' && upper(token)[1] == 'I' && upper(token)[2] == 'L'
                && upper(token)[3] == 'E' && upper(token)[4] == 'V' && upper(token)[5] == 'E'
                && upper(token)[6] == 'R');
        }
    }
    law_placeholders_show_their_fields(token, info, original);
    assert(placeholder(upper(token)) == Some(Field::FilePart(i)));
}

/// The parts of a version text are what stands between its dots, without
/// white space around it: the first part before the first dot, the others as
/// they count behind it, and none beyond the last.
pub proof fn law_version_parts_stand_between_dots(head: Seq<char>, rest: Seq<char>, i: int)
    requires
        forall|k: int| 0 <= k < head.len() ==> head[k] != '.',
        i >= 1,
    ensures
        part_of(head + seq!['.'] + rest, 1) == trim(head),
        part_of(head + seq!['.'] + rest, i + 1) == part_of(rest, i),
        part_of(head, 1) == trim(head),
        part_of(head, i + 1).len() == 0,
{
    lemma_split_cons(head, '.', rest);
    let whole = split(head + seq!['.'] + rest, '.');
    let tail = split(rest, '.');
    if i <= tail.len() {
        assert(whole[i] == tail[i - 1]);
    }
}

/// A brace that nothing closes stays as it is, with all that follows it.
pub proof fn law_open_braces_are_kept(rest: Seq<char>, info: InfoView, original: Seq<char>)
    requires
        forall|i: int| 0 <= i < rest.len() ==> rest[i] != '}',
    ensures
        rendered(seq!['{'] + rest, info, original) == seq!['{'] + rest,
{
    let p = seq!['{'] + rest;
    lemma_find_is(p, '{', 0);
    assert(p.skip(1) == rest);
    lemma_find_is(rest, '}', rest.len() as int);
}

} // verus!
