//! The new name of a file: valid, short enough, and with the extension that
//! the file had.
use crate::path::{
    dotted_extension, extension, law_stem_and_extension, lemma_dotted_extension, stem_of,
};
use crate::pattern::{
    closed_braces, law_rendering_goes_piecewise, render_pattern, rendered, DEFAULT_PATTERN,
};
use crate::text::{
    chars_of, decimal, decimal_text, ends_with, find, find_char, has_suffix, is_control,
    is_control_char, is_empty, lemma_find, lemma_find_after, lemma_find_is, lower, push_chars,
    push_text, same_text, string_of, to_lower, to_upper, upper,
};
use crate::versioninfo::{string_view, InfoView, VersionInfo};
use vstd::prelude::*;
use vstd::slice::slice_subrange;

verus! {

/// The longest file name, in characters.
pub const MAX_FILE_NAME_CHARS: usize = 255;

/// Names of devices, which no file can have, with or without an extension.
pub const RESERVED: [&'static str; 22] = [
    "CON",
    "PRN",
    "AUX",
    "NUL",
    "COM1",
    "COM2",
    "COM3",
    "COM4",
    "COM5",
    "COM6",
    "COM7",
    "COM8",
    "COM9",
    "LPT1",
    "LPT2",
    "LPT3",
    "LPT4",
    "LPT5",
    "LPT6",
    "LPT7",
    "LPT8",
    "LPT9",
];

// ---------------------------------------------------------------------
// Valid names
// ---------------------------------------------------------------------

/// Whether a character cannot stand in a file name.
pub open spec fn is_invalid(c: char) -> bool {
    is_control_char(c) || c == '<' || c == '>' || c == ':' || c == '"' || c == '/' || c == '\\' || c
        == '|' || c == '?' || c == '*'
}

/// A character, or an underscore in place of an invalid one.
pub open spec fn valid_char(c: char) -> char {
    if is_invalid(c) {
        '_'
    } else {
        c
    }
}

/// Whether a character cannot stand at the end of a file name.
pub open spec fn is_weak_end(c: char) -> bool {
    c == '.' || c == ' '
}

/// A text without the dots and spaces at its end.
pub open spec fn strip_end(s: Seq<char>) -> Seq<char>
    decreases s.len(),
{
    if s.len() > 0 && is_weak_end(s.last()) {
        strip_end(s.drop_last())
    } else {
        s
    }
}

/// Whether a text in upper case is the name of a device.
pub open spec fn is_device(base: Seq<char>) -> bool {
    exists|i: int| 0 <= i < 22 && #[trigger] RESERVED@[i]@ == base
}

/// Whether a file name stands for a device, whatever follows its first dot
/// and whatever its case.
pub open spec fn names_device(name: Seq<char>) -> bool {
    is_device(upper(name).take(find(upper(name), '.')))
}

/// A text made into a file name: invalid characters replaced, dots and spaces
/// at the end removed, and the name of a device set off by an underscore.
pub open spec fn sanitized(name: Seq<char>) -> Seq<char> {
    let out = strip_end(name.map_values(|c: char| valid_char(c)));
    if out.len() > 0 && names_device(out) {
        seq!['_'] + out
    } else {
        out
    }
}

fn device(name: &[char]) -> (r: bool)
    ensures
        r == names_device(name@),
{
    let chars = to_upper(name);
    let end = find_char(chars.as_slice(), '.');
    let base = slice_subrange(chars.as_slice(), 0, end);
    assert(base@ == chars@.take(end as int));
    for i in 0..22usize
        invariant
            base@ == upper(name@).take(find(upper(name@), '.')),
            forall|j: int| 0 <= j < i ==> #[trigger] RESERVED@[j]@ != base@,
    {
        if same_text(base, RESERVED[i]) {
            assert(RESERVED@[i as int]@ == base@);
            return true;
        }
    }
    false
}

/// Makes a text into a file name: replaces what is invalid in one, removes
/// dots and spaces at the end, and sets off the name of a device.
pub fn sanitize_filename(name: &str) -> (out: String)
    ensures
        out@ == sanitized(name@),
{
    let chars = chars_of(name);
    let mut out: Vec<char> = Vec::new();
    for i in 0..chars.len()
        invariant
            chars@ == name@,
            out@ == chars@.take(i as int).map_values(|c: char| valid_char(c)),
    {
        let c = chars[i];
        let bad = is_control(c) || c == '<' || c == '>' || c == ':' || c == '"' || c == '/' || c
            == '\\' || c == '|' || c == '?' || c == '*';
        out.push(
            if bad {
                '_'
            } else {
                c
            },
        );
        assert(out@ == chars@.take(i + 1).map_values(|c: char| valid_char(c)));
    }
    assert(chars@.take(chars.len() as int) == chars@);
    let ghost whole = out@;
    while out.len() > 0 && (out[out.len() - 1] == '.' || out[out.len() - 1] == ' ')
        invariant
            strip_end(out@) == strip_end(whole),
        decreases out.len(),
    {
        let ghost before = out@;
        out.pop();
        assert(out@ == before.drop_last());
    }
    assert(out@ == strip_end(whole));
    if out.len() > 0 && device(out.as_slice()) {
        let mut prefixed: Vec<char> = Vec::new();
        prefixed.push('_');
        push_chars(&mut prefixed, out.as_slice());
        assert(prefixed@ == seq!['_'] + out@);
        return string_of(prefixed.as_slice());
    }
    string_of(out.as_slice())
}

// ---------------------------------------------------------------------
// Extension and length
// ---------------------------------------------------------------------

/// Whether a name ends with an extension, in either case.
pub open spec fn has_extension(name: Seq<char>, ext: Seq<char>) -> bool {
    ends_with(lower(name), lower(ext))
}

/// A stem with an extension, which is not repeated.
pub open spec fn with_extension(stem: Seq<char>, ext: Seq<char>) -> Seq<char> {
    if ext.len() > 0 && has_extension(stem, ext) {
        stem
    } else {
        stem + ext
    }
}

/// Puts an extension behind a stem, unless it stands there already.
pub fn append_extension(stem: &str, extension: &str) -> (name: String)
    ensures
        name@ == with_extension(stem@, extension@),
{
    let stem = chars_of(stem);
    let ext = chars_of(extension);
    if ext.len() > 0 && has_suffix(
        to_lower(stem.as_slice()).as_slice(),
        to_lower(ext.as_slice()).as_slice(),
    ) {
        string_of(stem.as_slice())
    } else {
        let mut name = stem;
        push_chars(&mut name, ext.as_slice());
        string_of(name.as_slice())
    }
}

/// Which name was taken in place of one that is too long.
#[derive(Debug, Clone, Copy, PartialEq, Eq, Structural)]
pub enum NameFallback {
    NotNeeded,
    DefaultPattern,
    OriginalName,
}

/// The first of the names that is short enough, or else the original one.
pub open spec fn chosen_name(user: Seq<char>, default: Seq<char>, original: Seq<char>) -> (
    Seq<char>,
    NameFallback,
) {
    if user.len() <= MAX_FILE_NAME_CHARS {
        (user, NameFallback::NotNeeded)
    } else if default.len() <= MAX_FILE_NAME_CHARS {
        (default, NameFallback::DefaultPattern)
    } else {
        (original, NameFallback::OriginalName)
    }
}

/// Chooses the first of the names that is short enough, or else the original
/// one.
pub fn choose_final_name(user_name: &str, default_name: &str, original_name: &str) -> (r: (
    String,
    NameFallback,
))
    ensures
        (r.0@, r.1) == chosen_name(user_name@, default_name@, original_name@),
{
    if chars_of(user_name).len() <= MAX_FILE_NAME_CHARS {
        (user_name.to_owned(), NameFallback::NotNeeded)
    } else if chars_of(default_name).len() <= MAX_FILE_NAME_CHARS {
        (default_name.to_owned(), NameFallback::DefaultPattern)
    } else {
        (original_name.to_owned(), NameFallback::OriginalName)
    }
}

// ---------------------------------------------------------------------
// The plan
// ---------------------------------------------------------------------

/// The new name of a file, and what to tell where it is not the one that the
/// pattern asks for.
pub struct RenamePlan {
    pub name: String,
    pub fallback: NameFallback,
    pub warning: Option<String>,
}

/// The model of `RenamePlan`.
#[verifier::ext_equal]
pub struct PlanView {
    pub name: Seq<char>,
    pub fallback: NameFallback,
    pub warning: Option<Seq<char>>,
}

impl View for RenamePlan {
    type V = PlanView;

    open spec fn view(&self) -> PlanView {
        PlanView {
            name: self.name@,
            fallback: self.fallback,
            warning: string_view(self.warning),
        }
    }
}

/// The name that a pattern gives a file.
pub open spec fn pattern_name(pattern: Seq<char>, info: InfoView, file_name: Seq<char>) -> Seq<
    char,
> {
    with_extension(
        sanitized(rendered(pattern, info, file_name)),
        dotted_extension(file_name),
    )
}

/// What to tell of a name that was not taken.
pub open spec fn warning_text(
    fallback: NameFallback,
    user: Seq<char>,
    default: Seq<char>,
    original: Seq<char>,
) -> Option<Seq<char>> {
    match fallback {
        NameFallback::NotNeeded => None,
        NameFallback::DefaultPattern => Some(
            "Warning: file name from the given pattern is too long ("@ + decimal(user.len())
                + " chars, max 255); falling back to the default pattern: "@ + DEFAULT_PATTERN@,
        ),
        NameFallback::OriginalName => Some(
            "Warning: file name from the default pattern is also too long ("@ + decimal(
                default.len(),
            ) + " chars, max 255); keeping the original file name '"@ + original + "'"@,
        ),
    }
}

/// The plan for a file, or an error where the pattern gives it no name.
pub open spec fn planned(pattern: Seq<char>, info: InfoView, file_name: Seq<char>) -> Result<
    PlanView,
    Seq<char>,
> {
    if sanitized(rendered(pattern, info, file_name)).len() == 0 {
        Err("pattern produced an empty file name"@)
    } else {
        let user = pattern_name(pattern, info, file_name);
        let default = pattern_name(DEFAULT_PATTERN@, info, file_name);
        let (name, fallback) = chosen_name(user, default, file_name);
        Ok(
            PlanView {
                name,
                fallback,
                warning: warning_text(fallback, user, default, file_name),
            },
        )
    }
}

/// The model of a planning result.
pub open spec fn plan_result(r: Result<RenamePlan, String>) -> Result<PlanView, Seq<char>> {
    match r {
        Ok(plan) => Ok(plan@),
        Err(e) => Err(e@),
    }
}

fn warning(
    fallback: NameFallback,
    user_name: &str,
    default_name: &str,
    original_name: &str,
) -> (text: Option<String>)
    ensures
        string_view(text) == warning_text(
            fallback,
            user_name@,
            default_name@,
            original_name@,
        ),
{
    let mut out: Vec<char> = Vec::new();
    match fallback {
        NameFallback::NotNeeded => {
            return None;
        },
        NameFallback::DefaultPattern => {
            push_text(&mut out, "Warning: file name from the given pattern is too long (");
            push_chars(&mut out, decimal_text(chars_of(user_name).len() as u128).as_slice());
            push_text(&mut out, " chars, max 255); falling back to the default pattern: ");
            push_text(&mut out, DEFAULT_PATTERN);
        },
        NameFallback::OriginalName => {
            push_text(&mut out, "Warning: file name from the default pattern is also too long (");
            push_chars(&mut out, decimal_text(chars_of(default_name).len() as u128).as_slice());
            push_text(&mut out, " chars, max 255); keeping the original file name '");
            push_text(&mut out, original_name);
            push_text(&mut out, "'");
        },
    }
    Some(string_of(out.as_slice()))
}

/// Plans the new name of a file from a pattern. Where the name is too long,
/// the default pattern serves, and where that does not help, the file keeps
/// its name.
pub fn plan_rename(pattern: &str, info: &VersionInfo, file_name: &str) -> (r: Result<
    RenamePlan,
    String,
>)
    ensures
        plan_result(r) == planned(pattern@, info@, file_name@),
{
    let ext = extension(file_name);
    let user_stem = sanitize_filename(render_pattern(pattern, info, file_name).as_str());
    if is_empty(user_stem.as_str()) {
        return Err("pattern produced an empty file name".to_owned());
    }
    let user_name = append_extension(user_stem.as_str(), ext.as_str());
    let default_stem = sanitize_filename(
        render_pattern(DEFAULT_PATTERN, info, file_name).as_str(),
    );
    let default_name = append_extension(default_stem.as_str(), ext.as_str());
    let (name, fallback) = choose_final_name(
        user_name.as_str(),
        default_name.as_str(),
        file_name,
    );
    let warning = warning(fallback, user_name.as_str(), default_name.as_str(), file_name);
    Ok(RenamePlan { name, fallback, warning })
}

// ---------------------------------------------------------------------
// What is told
// ---------------------------------------------------------------------

/// What to do about the target of a rename: nothing to tell where it is free,
/// a note where the file has that name already, and an error where another
/// file has it.
pub open spec fn target_state(exists: bool, same_file: bool, target: Seq<char>) -> Result<
    Option<Seq<char>>,
    Seq<char>,
> {
    if !exists {
        Ok(None)
    } else if same_file {
        Ok(Some("already named '"@ + target + "'"@))
    } else {
        Err("target '"@ + target + "' already exists"@)
    }
}

/// Decides on the target of a rename: free to go on, or a note that nothing
/// is left to do, or an error. Whether the target is the file itself matters
/// only where it exists.
pub fn target_outcome(exists: bool, same_file: bool, target: &str) -> (r: Result<
    Option<String>,
    String,
>)
    ensures
        (match r {
            Ok(note) => Ok(string_view(note)),
            Err(e) => Err(e@),
        }) == target_state(exists, same_file, target@),
{
    let mut out: Vec<char> = Vec::new();
    if !exists {
        Ok(None)
    } else if same_file {
        push_text(&mut out, "already named '");
        push_text(&mut out, target);
        push_text(&mut out, "'");
        Ok(Some(string_of(out.as_slice())))
    } else {
        push_text(&mut out, "target '");
        push_text(&mut out, target);
        push_text(&mut out, "' already exists");
        Err(string_of(out.as_slice()))
    }
}

/// The note on a file that was renamed.
pub fn renamed_text(old: &str, target: &str) -> (text: String)
    ensures
        text@ == "'"@ + old@ + "' -> '"@ + target@ + "'"@,
{
    let mut out: Vec<char> = Vec::new();
    push_text(&mut out, "'");
    push_text(&mut out, old);
    push_text(&mut out, "' -> '");
    push_text(&mut out, target);
    push_text(&mut out, "'");
    string_of(out.as_slice())
}

/// The error of a rename that failed.
pub fn rename_failure(error: &str) -> (text: String)
    ensures
        text@ == "rename failed: "@ + error@,
{
    let mut out: Vec<char> = Vec::new();
    push_text(&mut out, "rename failed: ");
    push_text(&mut out, error);
    string_of(out.as_slice())
}

/// The error for a file whose version information could not be read.
pub fn read_failure(path: &str, error: &str) -> (text: String)
    ensures
        text@ == "failed to read version info from '"@ + path@ + "': "@ + error@,
{
    let mut out: Vec<char> = Vec::new();
    push_text(&mut out, "failed to read version info from '");
    push_text(&mut out, path);
    push_text(&mut out, "': ");
    push_text(&mut out, error);
    string_of(out.as_slice())
}

/// The error for a path that names no file.
pub fn invalid_path(path: &str) -> (text: String)
    ensures
        text@ == "invalid file path '"@ + path@ + "'"@,
{
    let mut out: Vec<char> = Vec::new();
    push_text(&mut out, "invalid file path '");
    push_text(&mut out, path);
    push_text(&mut out, "'");
    string_of(out.as_slice())
}

// ---------------------------------------------------------------------
// Laws
// ---------------------------------------------------------------------

/// Whether a text can be a file name, apart from its length.
pub open spec fn is_valid_name(name: Seq<char>) -> bool {
    &&& forall|i: int| 0 <= i < name.len() ==> !is_invalid(#[trigger] name[i])
    &&& name.len() > 0 ==> !is_weak_end(name.last())
    &&& name.len() > 0 ==> !names_device(name)
}

proof fn lemma_strip_end(s: Seq<char>)
    ensures
        strip_end(s).len() <= s.len(),
        strip_end(s) == s.take(strip_end(s).len() as int),
        strip_end(s).len() > 0 ==> !is_weak_end(strip_end(s).last()),
        forall|i: int| strip_end(s).len() <= i < s.len() ==> is_weak_end(s[i]),
    decreases s.len(),
{
    if s.len() > 0 && is_weak_end(s.last()) {
        let front = s.drop_last();
        lemma_strip_end(front);
        let n = strip_end(s).len();
        assert(s.take(n as int) == front.take(n as int));
        assert forall|i: int| n <= i < s.len() implies is_weak_end(s[i]) by {
            if i < front.len() {
                assert(s[i] == front[i]);
            }
        }
    } else {
        assert(s.take(s.len() as int) == s);
    }
}

proof fn lemma_devices_start_with_letters()
    ensures
        forall|i: int|
            0 <= i < 22 ==> (#[trigger] RESERVED@[i]@).len() > 0 && RESERVED@[i]@[0] != '_',
{
    reveal_strlit("CON");
    reveal_strlit("PRN");
    reveal_strlit("AUX");
    reveal_strlit("NUL");
    reveal_strlit("COM1");
    reveal_strlit("COM2");
    reveal_strlit("COM3");
    reveal_strlit("COM4");
    reveal_strlit("COM5");
    reveal_strlit("COM6");
    reveal_strlit("COM7");
    reveal_strlit("COM8");
    reveal_strlit("COM9");
    reveal_strlit("LPT1");
    reveal_strlit("LPT2");
    reveal_strlit("LPT3");
    reveal_strlit("LPT4");
    reveal_strlit("LPT5");
    reveal_strlit("LPT6");
    reveal_strlit("LPT7");
    reveal_strlit("LPT8");
    reveal_strlit("LPT9");
}

proof fn lemma_underscore_is_no_device(name: Seq<char>)
    requires
        name.len() > 0,
        name[0] == '_',
    ensures
        !names_device(name),
{
    lemma_devices_start_with_letters();
    lemma_find(upper(name), '.');
    let base = upper(name).take(find(upper(name), '.'));
    assert(upper(name)[0] == '_');
    assert(base.len() > 0 && base[0] == '_');
}

/// What comes out of `sanitize_filename` can be a file name: no invalid
/// character, no dot or space at the end, no device.
pub proof fn law_sanitized_names_are_valid(name: Seq<char>)
    ensures
        is_valid_name(sanitized(name)),
{
    let mapped = name.map_values(|c: char| valid_char(c));
    lemma_strip_end(mapped);
    let out = strip_end(mapped);
    assert forall|i: int| 0 <= i < out.len() implies !is_invalid(#[trigger] out[i]) by {
        assert(out[i] == mapped[i]);
        assert(mapped[i] == valid_char(name[i]));
    }
    if out.len() > 0 && names_device(out) {
        let prefixed = seq!['_'] + out;
        lemma_underscore_is_no_device(prefixed);
        assert(prefixed.last() == out.last());
        assert forall|i: int| 0 <= i < prefixed.len() implies !is_invalid(
            #[trigger] prefixed[i],
        ) by {
            if i > 0 {
                assert(prefixed[i] == out[i - 1]);
            }
        }
    }
}

/// A valid file name is left as it is.
pub proof fn law_valid_names_are_kept(name: Seq<char>)
    requires
        is_valid_name(name),
    ensures
        sanitized(name) == name,
{
    let mapped = name.map_values(|c: char| valid_char(c));
    assert(mapped == name) by {
        assert forall|i: int| 0 <= i < name.len() implies mapped[i] == name[i] by {
            assert(!is_invalid(name[i]));
        }
    }
}

/// Sanitizing twice is sanitizing once.
pub proof fn law_sanitizing_is_idempotent(name: Seq<char>)
    ensures
        sanitized(sanitized(name)) == sanitized(name),
{
    law_sanitized_names_are_valid(name);
    law_valid_names_are_kept(sanitized(name));
}

/// A name with an extension ends with it, whatever the stem was.
pub proof fn law_extension_is_there(stem: Seq<char>, ext: Seq<char>)
    ensures
        has_extension(with_extension(stem, ext), ext),
{
    lemma_joined_extension(stem, ext);
}

proof fn lemma_joined_extension(stem: Seq<char>, ext: Seq<char>)
    ensures
        has_extension(stem + ext, ext),
{
    let name = lower(stem + ext);
    assert(name.skip(name.len() - lower(ext).len()) == lower(ext));
}

/// An extension is never repeated.
pub proof fn law_extension_is_not_repeated(stem: Seq<char>, ext: Seq<char>)
    ensures
        with_extension(with_extension(stem, ext), ext) == with_extension(stem, ext),
{
    law_extension_is_there(stem, ext);
    if ext.len() == 0 {
        assert(stem + ext == stem);
    }
}

/// The chosen name is short enough, unless the file keeps its own.
pub proof fn law_chosen_names_fit(user: Seq<char>, default: Seq<char>, original: Seq<char>)
    ensures
        ({
            let (name, fallback) = chosen_name(user, default, original);
            name.len() <= MAX_FILE_NAME_CHARS || (fallback == NameFallback::OriginalName && name
                == original)
        }),
{
}

/// A renamed file keeps its extension, and its name is short enough or its
/// own.
pub proof fn law_renaming_keeps_the_extension(
    pattern: Seq<char>,
    info: InfoView,
    file_name: Seq<char>,
)
    ensures
        planned(pattern, info, file_name) matches Ok(plan) ==> {
            &&& has_extension(plan.name, dotted_extension(file_name))
            &&& plan.name.len() <= MAX_FILE_NAME_CHARS || plan.name == file_name
        },
{
    let ext = dotted_extension(file_name);
    law_extension_is_there(sanitized(rendered(pattern, info, file_name)), ext);
    law_extension_is_there(sanitized(rendered(DEFAULT_PATTERN@, info, file_name)), ext);
    law_stem_and_extension(file_name);
    lemma_joined_extension(stem_of(file_name), ext);
}

proof fn lemma_rendering_keeps_the_start(
    pattern: Seq<char>,
    info: InfoView,
    original: Seq<char>,
)
    requires
        pattern.len() > 0,
        pattern[0] != '{',
    ensures
        rendered(pattern, info, original).len() > 0,
        rendered(pattern, info, original)[0] == pattern[0],
{
    lemma_find(pattern, '{');
    let start = find(pattern, '{');
    assert(start > 0);
    assert(pattern.take(start)[0] == pattern[0]);
}

/// The default pattern never leads to an empty name.
pub proof fn law_default_pattern_names_every_file(info: InfoView, original: Seq<char>)
    ensures
        sanitized(rendered(DEFAULT_PATTERN@, info, original)).len() > 0,
{
    reveal_strlit("{Name}_{Arch}_{FileVer1}.{FileVer2}.{FileVer3}.{FileVer4}");
    let head = DEFAULT_PATTERN@.take(6);
    let rest = DEFAULT_PATTERN@.skip(6);
    assert(head + rest == DEFAULT_PATTERN@);
    assert(head[5] == '}');
    assert(closed_braces(head));
    law_rendering_goes_piecewise(head, rest, info, original);
    assert(rest[0] == '_');
    lemma_rendering_keeps_the_start(rest, info, original);
    let text = rendered(DEFAULT_PATTERN@, info, original);
    let at = rendered(head, info, original).len() as int;
    assert(text[at] == '_');
    let mapped = text.map_values(|c: char| valid_char(c));
    assert(mapped[at] == '_');
    lemma_strip_end(mapped);
    assert(!is_weak_end(mapped[at]));
}

proof fn lemma_extended_name_is_valid(stem: Seq<char>, file_name: Seq<char>)
    requires
        is_valid_name(stem),
        stem.len() > 0,
        is_valid_name(file_name),
    ensures
        is_valid_name(with_extension(stem, dotted_extension(file_name))),
        with_extension(stem, dotted_extension(file_name)).len() > 0,
{
    let ext = dotted_extension(file_name);
    let name = stem + ext;
    law_stem_and_extension(file_name);
    lemma_dotted_extension(file_name);
    if ext.len() == 0 {
        assert(name == stem);
    } else {
        let from = file_name.len() - ext.len();
        assert(ext == file_name.skip(from));
        assert forall|i: int| 0 <= i < name.len() implies !is_invalid(#[trigger] name[i]) by {
            if i >= stem.len() {
                assert(name[i] == file_name[from + i - stem.len()]);
            } else {
                assert(name[i] == stem[i]);
            }
        }
        assert(name.last() == file_name.last());
        assert(upper(name) == upper(stem) + upper(ext));
        lemma_find(upper(stem), '.');
        let at = find(upper(stem), '.');
        assert(upper(ext)[0] == '.');
        assert(upper(name)[at] == '.') by {
            if at < stem.len() {
                assert(upper(name)[at] == upper(stem)[at]);
            } else {
                assert(upper(name)[at] == upper(ext)[0]);
            }
        }
        assert forall|i: int| 0 <= i < at implies upper(name)[i] != '.' by {
            assert(upper(name)[i] == upper(stem)[i]);
        }
        lemma_find_is(upper(name), '.', at);
        assert(upper(name).take(at) == upper(stem).take(at));
    }
}

/// A file with a valid name gets a valid name, which is not empty.
pub proof fn law_planned_names_are_valid(
    pattern: Seq<char>,
    info: InfoView,
    file_name: Seq<char>,
)
    requires
        is_valid_name(file_name),
        file_name.len() > 0,
    ensures
        planned(pattern, info, file_name) matches Ok(plan) ==> is_valid_name(plan.name)
            && plan.name.len() > 0,
{
    let user = sanitized(rendered(pattern, info, file_name));
    let default = sanitized(rendered(DEFAULT_PATTERN@, info, file_name));
    if user.len() > 0 {
        law_sanitized_names_are_valid(rendered(pattern, info, file_name));
        lemma_extended_name_is_valid(user, file_name);
        law_default_pattern_names_every_file(info, file_name);
        law_sanitized_names_are_valid(rendered(DEFAULT_PATTERN@, info, file_name));
        lemma_extended_name_is_valid(default, file_name);
    }
}

/// These characters cannot stand in a file name, and all others can.
pub proof fn law_invalid_characters(c: char)
    ensures
        is_invalid(c) <==> ((c as u32) < 0x20 || 0x7F <= c as u32 <= 0x9F || c == '<' || c == '>'
            || c == ':' || c == '"' || c == '/' || c == '\\' || c == '|' || c == '?' || c == '*'),
{
}

/// A file name stands for a device by what comes before its first dot, in
/// either case, and only if that is the name of one.
pub proof fn law_devices_are_told_before_the_first_dot(base: Seq<char>, rest: Seq<char>)
    requires
        forall|i: int| 0 <= i < base.len() ==> base[i] != '.',
    ensures
        names_device(base) <==> ({
            let b = upper(base);
            b == "CON"@ || b == "PRN"@ || b == "AUX"@ || b == "NUL"@ || b == "COM1"@ || b == "COM2"@
                || b == "COM3"@ || b == "COM4"@ || b == "COM5"@ || b == "COM6"@ || b == "COM7"@
                || b == "COM8"@ || b == "COM9"@ || b == "LPT1"@ || b == "LPT2"@ || b == "LPT3"@
                || b == "LPT4"@ || b == "LPT5"@ || b == "LPT6"@ || b == "LPT7"@ || b == "LPT8"@
                || b == "LPT9"@
        }),
        names_device(base + seq!['.'] + rest) <==> names_device(base),
{
    let b = upper(base);
    assert forall|i: int| 0 <= i < b.len() implies b[i] != '.' by {
        assert(base[i] != '.');
    }
    lemma_find_after(b, '.', upper(rest));
    let whole = upper(base + seq!['.'] + rest);
    assert(whole == b + seq!['.'] + upper(rest));
    assert(whole.take(b.len() as int) == b);
    assert(b.take(b.len() as int) == b);
    lemma_devices_are_listed(b);
}

proof fn lemma_devices_are_listed(b: Seq<char>)
    ensures
        is_device(b) <==> (b == "CON"@ || b == "PRN"@ || b == "AUX"@ || b == "NUL"@ || b == "COM1"@
            || b == "COM2"@ || b == "COM3"@ || b == "COM4"@ || b == "COM5"@ || b == "COM6"@
            || b == "COM7"@ || b == "COM8"@ || b == "COM9"@ || b == "LPT1"@ || b == "LPT2"@
            || b == "LPT3"@ || b == "LPT4"@ || b == "LPT5"@ || b == "LPT6"@ || b == "LPT7"@
            || b == "LPT8"@ || b == "LPT9"@),
{
    assert(RESERVED@[0]@ == "CON"@);
    assert(RESERVED@[1]@ == "PRN"@);
    assert(RESERVED@[2]@ == "AUX"@);
    assert(RESERVED@[3]@ == "NUL"@);
    assert(RESERVED@[4]@ == "COM1"@);
    assert(RESERVED@[5]@ == "COM2"@);
    assert(RESERVED@[6]@ == "COM3"@);
    assert(RESERVED@[7]@ == "COM4"@);
    assert(RESERVED@[8]@ == "COM5"@);
    assert(RESERVED@[9]@ == "COM6"@);
    assert(RESERVED@[10]@ == "COM7"@);
    assert(RESERVED@[11]@ == "COM8"@);
    assert(RESERVED@[12]@ == "COM9"@);
    assert(RESERVED@[13]@ == "LPT1"@);
    assert(RESERVED@[14]@ == "LPT2"@);
    assert(RESERVED@[15]@ == "LPT3"@);
    assert(RESERVED@[16]@ == "LPT4"@);
    assert(RESERVED@[17]@ == "LPT5"@);
    assert(RESERVED@[18]@ == "LPT6"@);
    assert(RESERVED@[19]@ == "LPT7"@);
    assert(RESERVED@[20]@ == "LPT8"@);
    assert(RESERVED@[21]@ == "LPT9"@);
    if is_device(b) {
        let i = choose|i: int| 0 <= i < 22 && #[trigger] RESERVED@[i]@ == b;
        assert(0 <= i < 22);
    }
}

/// Dots and spaces at the end of a name do not count.
pub proof fn law_weak_ends_do_not_count(name: Seq<char>, c: char)
    requires
        c == '.' || c == ' ',
    ensures
        sanitized(name.push(c)) == sanitized(name),
{
    let f = |c: char| valid_char(c);
    let mapped = name.map_values(f);
    assert(name.push(c).map_values(f) == mapped.push(c));
    assert(mapped.push(c).drop_last() == mapped);
}

/// Apart from its end, a name keeps every valid character at its place, has an
/// underscore in place of every other one, and, if it then stands for a
/// device, one more in front.
pub proof fn law_invalid_characters_are_replaced(name: Seq<char>, out: Seq<char>)
    requires
        name.len() > 0,
        name.last() != '.',
        name.last() != ' ',
        out.len() == name.len(),
        forall|i: int|
            0 <= i < name.len() ==> #[trigger] out[i] == (if is_invalid(name[i]) {
                '_'
            } else {
                name[i]
            }),
    ensures
        !names_device(out) ==> sanitized(name) == out,
        names_device(out) ==> sanitized(name) == seq!['_'] + out,
{
    let mapped = name.map_values(|c: char| valid_char(c));
    assert(mapped == out);
    assert(out[out.len() - 1] == out.last());
}

/// Nothing is left of a name of dots and spaces, and something of any other.
pub proof fn law_only_weak_names_are_empty(name: Seq<char>)
    ensures
        sanitized(name).len() == 0 <==> forall|i: int|
            0 <= i < name.len() ==> #[trigger] name[i] == '.' || name[i] == ' ',
{
    let mapped = name.map_values(|c: char| valid_char(c));
    lemma_strip_end(mapped);
    if sanitized(name).len() == 0 {
        assert(strip_end(mapped).len() == 0);
        assert forall|i: int| 0 <= i < name.len() implies #[trigger] name[i] == '.' || name[i]
            == ' ' by {
            assert(is_weak_end(mapped[i]));
        }
    }
    if forall|i: int| 0 <= i < name.len() ==> #[trigger] name[i] == '.' || name[i] == ' ' {
        let n = strip_end(mapped).len() as int;
        if n > 0 {
            assert(strip_end(mapped).last() == mapped[n - 1]);
            assert(name[n - 1] == '.' || name[n - 1] == ' ');
        }
    }
}

/// An extension is put behind a stem unless the stem ends with it, in either
/// case.
pub proof fn law_extensions_are_put_behind(head: Seq<char>, tail: Seq<char>, ext: Seq<char>)
    requires
        tail.len() == ext.len(),
        ext.len() > 0,
    ensures
        lower(tail) == lower(ext) ==> with_extension(head + tail, ext) == head + tail,
        lower(tail) != lower(ext) ==> with_extension(head + tail, ext) == head + tail + ext,
        head.len() < ext.len() ==> with_extension(head, ext) == head + ext,
        with_extension(head, Seq::empty()) == head,
{
    let name = head + tail;
    assert(lower(name).skip(lower(name).len() - lower(ext).len()) == lower(tail));
    assert(head + Seq::<char>::empty() == head);
}

/// The name of a file is the one that its pattern gives, if that has up to 255
/// characters, or else the one of the default pattern, if that has, or else
/// the one it had; and what is told of it is why.
pub proof fn law_plans_take_the_first_name_that_fits(
    pattern: Seq<char>,
    info: InfoView,
    file_name: Seq<char>,
)
    ensures
        ({
            let ext = dotted_extension(file_name);
            let stem = sanitized(rendered(pattern, info, file_name));
            let user = with_extension(stem, ext);
            let default = with_extension(
                sanitized(
                    rendered(
                        "{Name}_{Arch}_{FileVer1}.{FileVer2}.{FileVer3}.{FileVer4}"@,
                        info,
                        file_name,
                    ),
                ),
                ext,
            );
            let plan = planned(pattern, info, file_name);
            &&& stem.len() == 0 ==> plan == Err::<PlanView, Seq<char>>(
                "pattern produced an empty file name"@,
            )
            &&& stem.len() > 0 ==> plan is Ok
            &&& stem.len() > 0 && user.len() <= 255 ==> plan->Ok_0.name == user
                && plan->Ok_0.warning is None && plan->Ok_0.fallback == NameFallback::NotNeeded
            &&& stem.len() > 0 && user.len() > 255 && default.len() <= 255 ==> plan->Ok_0.name
                == default && plan->Ok_0.fallback == NameFallback::DefaultPattern
                && plan->Ok_0.warning == Some(
                "Warning: file name from the given pattern is too long ("@ + decimal(user.len())
                    + " chars, max 255); falling back to the default pattern: "@
                    + "{Name}_{Arch}_{FileVer1}.{FileVer2}.{FileVer3}.{FileVer4}"@,
            )
            &&& stem.len() > 0 && user.len() > 255 && default.len() > 255 ==> plan->Ok_0.name
                == file_name && plan->Ok_0.fallback == NameFallback::OriginalName
                && plan->Ok_0.warning == Some(
                "Warning: file name from the default pattern is also too long ("@ + decimal(
                    default.len(),
                ) + " chars, max 255); keeping the original file name '"@ + file_name + "'"@,
            )
        }),
{
}

/// A file is renamed only to a name that no other file has.
pub proof fn law_no_other_file_is_replaced(exists: bool, same_file: bool, target: Seq<char>)
    ensures
        target_state(exists, same_file, target) == Ok::<Option<Seq<char>>, Seq<char>>(None)
            <==> !exists,
        exists && same_file ==> target_state(exists, same_file, target) == Ok::<
            Option<Seq<char>>,
            Seq<char>,
        >(Some("already named '"@ + target + "'"@)),
        exists && !same_file ==> target_state(exists, same_file, target) == Err::<
            Option<Seq<char>>,
            Seq<char>,
        >("target '"@ + target + "' already exists"@),
{
}

/// Of three names the first with up to 255 characters is chosen, and the last
/// one without a test.
pub proof fn law_the_first_name_that_fits_is_chosen(
    user: Seq<char>,
    default: Seq<char>,
    original: Seq<char>,
)
    ensures
        user.len() <= 255 ==> chosen_name(user, default, original) == (
            user,
            NameFallback::NotNeeded,
        ),
        user.len() > 255 && default.len() <= 255 ==> chosen_name(user, default, original) == (
            default,
            NameFallback::DefaultPattern,
        ),
        user.len() > 255 && default.len() > 255 ==> chosen_name(user, default, original) == (
            original,
            NameFallback::OriginalName,
        ),
{
}

} // verus!
