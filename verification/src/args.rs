//! The command line: a file and a pattern in either order, or a call for help.
use crate::naming::MAX_FILE_NAME_CHARS;
use crate::pattern::DEFAULT_PATTERN;
use crate::text::{
    chars_of, decimal, decimal_text, ends_with, has_suffix, is_empty, lower, push_chars, push_text,
    same_text, string_of, texts, to_lower,
};
use vstd::prelude::*;

verus! {

/// Whether an argument asks for help, in either case.
pub open spec fn asks_for_help(arg: Seq<char>) -> bool {
    lower(arg) == "--help"@ || lower(arg) == "-h"@ || lower(arg) == "/?"@
}

/// Whether an argument asks for help.
pub fn is_help_flag(arg: &str) -> (r: bool)
    ensures
        r == asks_for_help(arg@),
{
    let arg = to_lower(chars_of(arg).as_slice());
    same_text(arg.as_slice(), "--help") || same_text(arg.as_slice(), "-h") || same_text(
        arg.as_slice(),
        "/?",
    )
}

/// An argument as a pattern, which must not be empty.
pub open spec fn given_pattern(arg: Seq<char>) -> Result<Seq<char>, Seq<char>> {
    if arg.len() == 0 {
        Err("pattern must not be empty"@)
    } else {
        Ok(arg)
    }
}

/// The model of a result with texts.
pub open spec fn text_result(r: Result<String, String>) -> Result<Seq<char>, Seq<char>> {
    match r {
        Ok(s) => Ok(s@),
        Err(e) => Err(e@),
    }
}

/// Takes an argument as a pattern.
pub fn pattern_from(arg: &str) -> (r: Result<String, String>)
    ensures
        text_result(r) == given_pattern(arg@),
{
    if is_empty(arg) {
        Err("pattern must not be empty".to_owned())
    } else {
        Ok(arg.to_owned())
    }
}

/// Whether an argument is taken for a file: one that exists, or one that is
/// named like a program.
pub open spec fn file_like(is_file: bool, arg: Seq<char>) -> bool {
    is_file || ends_with(lower(arg), ".exe"@)
}

/// Whether an argument is taken for a file, given whether such a file exists.
pub fn looks_like_file(is_file: bool, arg: &str) -> (r: bool)
    ensures
        r == file_like(is_file, arg@),
{
    is_file || has_suffix(
        to_lower(chars_of(arg).as_slice()).as_slice(),
        chars_of(".exe").as_slice(),
    )
}

/// Which argument is the file, and the pattern. The program comes first among
/// the arguments. The order of two more is told by whether the first of them
/// looks like a file.
pub open spec fn parsed_args(args: Seq<Seq<char>>, first_is_file: bool) -> Result<
    (int, Seq<char>),
    Seq<char>,
> {
    if args.len() == 2 {
        Ok((1, DEFAULT_PATTERN@))
    } else if args.len() == 3 {
        let (file, pattern) = if file_like(first_is_file, args[1]) {
            (1int, args[2])
        } else {
            (2int, args[1])
        };
        match given_pattern(pattern) {
            Ok(p) => Ok((file, p)),
            Err(e) => Err(e),
        }
    } else {
        let given = if args.len() == 0 {
            0
        } else {
            (args.len() - 1) as nat
        };
        Err("unexpected number of arguments: "@ + decimal(given))
    }
}

/// The model of what `parse_args` returns.
pub open spec fn parse_result(r: Result<(usize, String), String>) -> Result<
    (int, Seq<char>),
    Seq<char>,
> {
    match r {
        Ok((file, pattern)) => Ok((file as int, pattern@)),
        Err(e) => Err(e@),
    }
}

/// Reads the command line, the program included: `FILE [PATTERN]` or
/// `PATTERN FILE`. Returns the position of the file and the pattern.
/// `first_is_file` says whether the first argument behind the program is an
/// existing file.
pub fn parse_args(args: &[String], first_is_file: bool) -> (r: Result<(usize, String), String>)
    ensures
        parse_result(r) == parsed_args(texts(args@), first_is_file),
{
    let n = args.len();
    if n == 2 {
        Ok((1, DEFAULT_PATTERN.to_owned()))
    } else if n == 3 {
        let (file, pattern): (usize, usize) = if looks_like_file(first_is_file, args[1].as_str()) {
            (1, 2)
        } else {
            (2, 1)
        };
        match pattern_from(args[pattern].as_str()) {
            Ok(p) => Ok((file, p)),
            Err(e) => Err(e),
        }
    } else {
        let given: usize = if n == 0 {
            0
        } else {
            n - 1
        };
        let mut out: Vec<char> = Vec::new();
        push_text(&mut out, "unexpected number of arguments: ");
        push_chars(&mut out, decimal_text(given as u128).as_slice());
        Err(string_of(out.as_slice()))
    }
}

/// What the command line asks for.
pub enum Command {
    /// Show the help.
    Help,
    /// Rename the file at that position of the command line by the pattern.
    Rename(usize, String),
    /// Tell what is wrong, and show the help.
    Usage(String),
}

/// Reads the command line. Without an argument, or where the first one asks
/// for it, the help is shown.
pub fn command(args: &[String], first_is_file: bool) -> (c: Command)
    requires
        args@.len() >= 1,
    ensures
        c is Help <==> args@.len() == 1 || asks_for_help(args@[1]@),
        match c {
            Command::Help => true,
            Command::Rename(file, pattern) => parsed_args(texts(args@), first_is_file) == Ok::<
                (int, Seq<char>),
                Seq<char>,
            >((file as int, pattern@)),
            Command::Usage(e) => parsed_args(texts(args@), first_is_file) == Err::<
                (int, Seq<char>),
                Seq<char>,
            >(e@),
        },
{
    if args.len() == 1 || is_help_flag(args[1].as_str()) {
        return Command::Help;
    }
    match parse_args(args, first_is_file) {
        Ok((file, pattern)) => Command::Rename(file, pattern),
        Err(e) => Command::Usage(e),
    }
}

// ---------------------------------------------------------------------
// Help
// ---------------------------------------------------------------------

/// The help, up to the version.
pub const HELP_TITLE: &'static str = "This is Version Renamer for Windows Executables, you can rename your exe files with patterns.\nVersion: ";

/// The help behind the version, up to the name of the program.
pub const HELP_FILES: &'static str = "\n\nSupported files: PE executables (exe/dll/sys) with version info,\n  MSI packages.\n\nUsage:\n  ";

/// The arguments in their first order.
pub const HELP_FILE_FIRST: &'static str = " <FILE> [PATTERN]\n  ";

/// The arguments in their second order, up to the default pattern.
pub const HELP_PATTERN_FIRST: &'static str = " <PATTERN> <FILE>\n\nWhen PATTERN is omitted, the default pattern is used:\n  ";

/// What leads to the example.
pub const HELP_EXAMPLE: &'static str = "\n\nExample:\n  ";

/// The end of the example and the placeholders, up to the longest name.
pub const HELP_PLACEHOLDERS: &'static str = " Code-stable-e3jmdijwkdowj.exe
  > VSCode_x64_1.2.3.0.exe

Available placeholders (case-insensitive):

  Core:
    {Name}, {Arch}
  Version:
    {FileVer}, {ProductVer}
    {FileVer1}..{FileVer4}, {ProductVer1}..{ProductVer4}
  String fields:
    {Description}, {Company}, {Copyright}, {Trademarks}
    {Comments}, {InternalName}, {OriginalName}
    {PrivateBuild}, {SpecialBuild}
  Fixed info:
    {FileType}, {FileSubtype}, {FileOS}, {Flags}

  Legacy aliases still work: {VER-1}..{VER-4}, {PVER-1}..{PVER-4}, {P},
    {TYPE}, {SUBTYPE}, {OS}, {INTERNAL}, {ORIGINAL}, {BUILD}, {SPECIAL}

If the resulting file name exceeds ";

/// The end of the help.
pub const HELP_END: &'static str = " characters, the default pattern is used;\nif that is still too long, the original file name is kept.\n\nPlaceholders with no value for the given file type render as \u{FFFD}.\n";

/// The help text.
pub open spec fn help(program: Seq<char>, version: Seq<char>) -> Seq<char> {
    HELP_TITLE@ + version + HELP_FILES@ + program + HELP_FILE_FIRST@ + program
        + HELP_PATTERN_FIRST@ + DEFAULT_PATTERN@ + HELP_EXAMPLE@ + program + " "@
        + DEFAULT_PATTERN@ + HELP_PLACEHOLDERS@ + decimal(MAX_FILE_NAME_CHARS as nat) + HELP_END@
}

/// The help text, for a program of the given name and version.
pub fn help_text(program: &str, version: &str) -> (text: String)
    ensures
        text@ == help(program@, version@),
{
    let mut out = chars_of(HELP_TITLE);
    push_text(&mut out, version);
    push_text(&mut out, HELP_FILES);
    push_text(&mut out, program);
    push_text(&mut out, HELP_FILE_FIRST);
    push_text(&mut out, program);
    push_text(&mut out, HELP_PATTERN_FIRST);
    push_text(&mut out, DEFAULT_PATTERN);
    push_text(&mut out, HELP_EXAMPLE);
    push_text(&mut out, program);
    push_text(&mut out, " ");
    push_text(&mut out, DEFAULT_PATTERN);
    push_text(&mut out, HELP_PLACEHOLDERS);
    push_chars(&mut out, decimal_text(MAX_FILE_NAME_CHARS as u128).as_slice());
    push_text(&mut out, HELP_END);
    string_of(out.as_slice())
}

// ---------------------------------------------------------------------
// Laws
// ---------------------------------------------------------------------

/// File and pattern may come in either order, as long as the pattern does not
/// look like a file itself.
pub proof fn law_order_of_arguments(
    program: Seq<char>,
    file: Seq<char>,
    pattern: Seq<char>,
    file_exists: bool,
    pattern_exists: bool,
)
    requires
        file_like(file_exists, file),
        !file_like(pattern_exists, pattern),
        pattern.len() > 0,
    ensures
        parsed_args(seq![program, file, pattern], file_exists) == Ok::<
            (int, Seq<char>),
            Seq<char>,
        >((1, pattern)),
        parsed_args(seq![program, pattern, file], pattern_exists) == Ok::<
            (int, Seq<char>),
            Seq<char>,
        >((2, pattern)),
{
}

/// The case of a call for help makes no difference.
pub proof fn law_help_ignores_case(a: Seq<char>, b: Seq<char>)
    requires
        lower(a) == lower(b),
    ensures
        asks_for_help(a) == asks_for_help(b),
{
}

/// With two arguments behind the program, the first one alone tells their
/// order: if it looks like a file, it is the file, whatever the second one
/// looks like, and otherwise the second one is. The other one is the pattern.
pub proof fn law_the_first_argument_tells_the_order(
    program: Seq<char>,
    a: Seq<char>,
    b: Seq<char>,
    a_is_file: bool,
)
    ensures
        ({
            let r = parsed_args(seq![program, a, b], a_is_file);
            let program_name = a.len() >= 4 && lower(a.skip(a.len() - 4)) == ".exe"@;
            let file_first = a_is_file || program_name;
            let refused = Err::<(int, Seq<char>), Seq<char>>("pattern must not be empty"@);
            &&& file_first && b.len() > 0 ==> r == Ok::<(int, Seq<char>), Seq<char>>((1, b))
            &&& file_first && b.len() == 0 ==> r == refused
            &&& !file_first && a.len() > 0 ==> r == Ok::<(int, Seq<char>), Seq<char>>((2, a))
            &&& !file_first && a.len() == 0 ==> r == refused
        }),
{
    law_programs_look_like_files(a_is_file, a);
}

/// An argument looks like a file where there is such a file, or where it ends
/// with `.exe` in either case, and only there.
pub proof fn law_programs_look_like_files(is_file: bool, arg: Seq<char>)
    ensures
        file_like(is_file, arg) <==> (is_file || (arg.len() >= 4 && lower(
            arg.skip(arg.len() - 4),
        ) == ".exe"@)),
{
    reveal_strlit(".exe");
    if arg.len() >= 4 {
        assert(lower(arg).skip(arg.len() - 4) == lower(arg.skip(arg.len() - 4)));
    }
}

/// A file alone gets the default pattern, and any other number of arguments
/// than one or two behind the program is refused.
pub proof fn law_one_or_two_arguments(args: Seq<Seq<char>>, first_is_file: bool)
    ensures
        args.len() == 2 ==> parsed_args(args, first_is_file) == Ok::<(int, Seq<char>), Seq<char>>(
            (1, "{Name}_{Arch}_{FileVer1}.{FileVer2}.{FileVer3}.{FileVer4}"@),
        ),
        args.len() > 3 ==> parsed_args(args, first_is_file) == Err::<(int, Seq<char>), Seq<char>>(
            "unexpected number of arguments: "@ + decimal((args.len() - 1) as nat),
        ),
        args.len() < 2 ==> parsed_args(args, first_is_file) == Err::<(int, Seq<char>), Seq<char>>(
            "unexpected number of arguments: "@ + decimal(0),
        ),
{
}

/// Three flags ask for help, in either case, and nothing else does.
pub proof fn law_three_flags_ask_for_help(arg: Seq<char>)
    ensures
        asks_for_help(arg) <==> (lower(arg) == "--help"@ || lower(arg) == "-h"@ || lower(arg)
            == "/?"@),
{
}

/// The help shows the version and, in its three places, the program, whatever
/// they are; the rest of it is always the same.
pub proof fn law_help_shows_program_and_version(program: Seq<char>, version: Seq<char>)
    ensures
        ({
            let none = Seq::<char>::empty();
            let bare = help(none, none);
            let a = HELP_TITLE@.len() as int;
            let b = a + HELP_FILES@.len();
            let c = b + HELP_FILE_FIRST@.len();
            let d = c + HELP_PATTERN_FIRST@.len() + DEFAULT_PATTERN@.len() + HELP_EXAMPLE@.len();
            help(program, version) == bare.take(a) + version + bare.subrange(a, b) + program
                + bare.subrange(b, c) + program + bare.subrange(c, d) + program + bare.skip(d)
        }),
{
    let none = Seq::<char>::empty();
    let bare = help(none, none);
    let a = HELP_TITLE@.len() as int;
    let b = a + HELP_FILES@.len();
    let c = b + HELP_FILE_FIRST@.len();
    let d = c + HELP_PATTERN_FIRST@.len() + DEFAULT_PATTERN@.len() + HELP_EXAMPLE@.len();
    let middle = HELP_PATTERN_FIRST@ + DEFAULT_PATTERN@ + HELP_EXAMPLE@;
    let end = " "@ + DEFAULT_PATTERN@ + HELP_PLACEHOLDERS@ + decimal(MAX_FILE_NAME_CHARS as nat)
        + HELP_END@;
    assert(bare == HELP_TITLE@ + HELP_FILES@ + HELP_FILE_FIRST@ + middle + end);
    assert(bare.take(a) == HELP_TITLE@);
    assert(bare.subrange(a, b) == HELP_FILES@);
    assert(bare.subrange(b, c) == HELP_FILE_FIRST@);
    assert(bare.subrange(c, d) == middle);
    assert(bare.skip(d) == end);
    assert(help(program, version) == HELP_TITLE@ + version + HELP_FILES@ + program
        + HELP_FILE_FIRST@ + program + middle + program + end);
}

} // verus!
