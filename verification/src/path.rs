//! The parts of a Windows path that names depend on.
use crate::text::{chars_of, string_of};
use crate::versioninfo::string_view;
use vstd::prelude::*;
use vstd::slice::slice_subrange;

verus! {

/// Whether `c` separates the components of a path.
pub open spec fn is_separator(c: char) -> bool {
    c == '/' || c == '\\'
}

/// Whether `c` separates the components of a path, where a verbatim path knows
/// the backslash alone.
pub open spec fn separates(c: char, verbatim: bool) -> bool {
    c == '\\' || (c == '/' && !verbatim)
}

/// Whether `c` is a letter from `A` to `Z` in either case.
pub open spec fn is_letter(c: char) -> bool {
    ('a' <= c && c <= 'z') || ('A' <= c && c <= 'Z')
}

// ---------------------------------------------------------------------
// Prefixes
// ---------------------------------------------------------------------

/// Whether a path starts with a drive.
pub open spec fn has_drive(path: Seq<char>) -> bool {
    path.len() >= 2 && is_letter(path[0]) && path[1] == ':'
}

/// Whether a path starts with `\\?\`, and so is taken as it is written.
pub open spec fn is_verbatim(path: Seq<char>) -> bool {
    path.len() >= 4 && path[0] == '\\' && path[1] == '\\' && path[2] == '?' && path[3] == '\\'
}

/// Whether a path starts with `\\.\`, and so names a device.
pub open spec fn is_device_path(path: Seq<char>) -> bool {
    path.len() >= 4 && is_separator(path[0]) && is_separator(path[1]) && path[2] == '.'
        && is_separator(path[3])
}

/// Whether a text starts with `UNC` and a separator.
pub open spec fn has_share_word(path: Seq<char>) -> bool {
    path.len() >= 4 && path[0] == 'U' && path[1] == 'N' && path[2] == 'C' && is_separator(path[3])
}

/// The length of the first component of a path.
pub open spec fn first_len(path: Seq<char>, verbatim: bool) -> int
    decreases path.len(),
{
    if path.len() == 0 || separates(path[0], verbatim) {
        0
    } else {
        1 + first_len(path.skip(1), verbatim)
    }
}

/// The length of the second component of a path; 0 where there is none.
pub open spec fn second_len(path: Seq<char>, verbatim: bool) -> int {
    let first = first_len(path, verbatim);
    if first < path.len() {
        first_len(path.skip(first + 1), verbatim)
    } else {
        0
    }
}

/// The length of a server and a share; of the server alone where no share
/// follows it.
pub open spec fn share_len(path: Seq<char>, verbatim: bool) -> int {
    let share = second_len(path, verbatim);
    first_len(path, verbatim) + if share > 0 {
        1 + share
    } else {
        0
    }
}

/// The length of the prefix of a path, which says where the path starts and
/// names no file: a drive (`C:`), a share (`\\server\share`), a device
/// (`\\.\COM1`), or, for a verbatim path, one of `\\?\C:`,
/// `\\?\UNC\server\share` and `\\?\name`.
pub open spec fn prefix_len(path: Seq<char>) -> int {
    if is_verbatim(path) {
        let rest = path.skip(4);
        if has_share_word(rest) {
            8 + share_len(rest.skip(4), true)
        } else if has_drive(rest) && (rest.len() == 2 || is_separator(rest[2])) {
            6
        } else {
            4 + first_len(rest, true)
        }
    } else if is_device_path(path) {
        4 + first_len(path.skip(4), false)
    } else if path.len() >= 2 && is_separator(path[0]) && is_separator(path[1]) {
        let rest = path.skip(2);
        if first_len(rest, false) > 0 && second_len(rest, false) > 0 {
            2 + share_len(rest, false)
        } else {
            0
        }
    } else if has_drive(path) {
        2
    } else {
        0
    }
}

proof fn lemma_first_len(path: Seq<char>, verbatim: bool)
    ensures
        0 <= first_len(path, verbatim) <= path.len(),
        first_len(path, verbatim) < path.len() ==> separates(
            path[first_len(path, verbatim)],
            verbatim,
        ),
        forall|i: int| 0 <= i < first_len(path, verbatim) ==> !separates(path[i], verbatim),
    decreases path.len(),
{
    if path.len() > 0 && !separates(path[0], verbatim) {
        let rest = path.skip(1);
        lemma_first_len(rest, verbatim);
        assert forall|i: int| 0 <= i < first_len(path, verbatim) implies !separates(
            path[i],
            verbatim,
        ) by {
            if i > 0 {
                assert(path[i] == rest[i - 1]);
            }
        }
    }
}

fn is_sep(c: char, verbatim: bool) -> (r: bool)
    ensures
        r == separates(c, verbatim),
{
    c == '\\' || (c == '/' && !verbatim)
}

fn starts_with_drive(path: &[char]) -> (r: bool)
    ensures
        r == has_drive(path@),
{
    path.len() >= 2 && ((path[0] >= 'a' && path[0] <= 'z') || (path[0] >= 'A' && path[0] <= 'Z'))
        && path[1] == ':'
}

fn first_component(path: &[char], verbatim: bool) -> (n: usize)
    ensures
        n == first_len(path@, verbatim),
        n <= path.len(),
{
    let mut n: usize = 0;
    while n < path.len() && !is_sep(path[n], verbatim)
        invariant
            n <= path.len(),
            forall|i: int| 0 <= i < n ==> !separates(path@[i], verbatim),
        decreases path.len() - n,
    {
        n += 1;
    }
    proof {
        lemma_first_len(path@, verbatim);
        let f = first_len(path@, verbatim);
        if f < n {
            assert(!separates(path@[f], verbatim));
        } else if n < f {
            assert(!separates(path@[n as int], verbatim));
        }
    }
    n
}

fn second_component(path: &[char], verbatim: bool) -> (n: usize)
    ensures
        n == second_len(path@, verbatim),
        first_len(path@, verbatim) + n <= path.len(),
        n > 0 ==> first_len(path@, verbatim) + 1 + n <= path.len(),
{
    let first = first_component(path, verbatim);
    if first < path.len() {
        let rest = slice_subrange(path, first + 1, path.len());
        assert(rest@ == path@.skip(first + 1));
        first_component(rest, verbatim)
    } else {
        0
    }
}

fn share_component(path: &[char], verbatim: bool) -> (n: usize)
    ensures
        n == share_len(path@, verbatim),
        n <= path.len(),
{
    let first = first_component(path, verbatim);
    let second = second_component(path, verbatim);
    if second > 0 {
        first + 1 + second
    } else {
        first
    }
}

/// The length of the prefix of a path.
fn prefix(path: &[char]) -> (n: usize)
    ensures
        n == prefix_len(path@),
        n <= path.len(),
{
    if path.len() >= 4 && path[0] == '\\' && path[1] == '\\' && path[2] == '?' && path[3] == '\\' {
        let rest = slice_subrange(path, 4, path.len());
        assert(rest@ == path@.skip(4));
        if rest.len() >= 4 && rest[0] == 'U' && rest[1] == 'N' && rest[2] == 'C' && is_sep(
            rest[3],
            false,
        ) {
            let share = slice_subrange(rest, 4, rest.len());
            assert(share@ == rest@.skip(4));
            8 + share_component(share, true)
        } else if starts_with_drive(rest) && (rest.len() == 2 || is_sep(rest[2], false)) {
            6
        } else {
            4 + first_component(rest, true)
        }
    } else if path.len() >= 4 && is_sep(path[0], false) && is_sep(path[1], false) && path[2] == '.'
        && is_sep(path[3], false) {
        let rest = slice_subrange(path, 4, path.len());
        assert(rest@ == path@.skip(4));
        4 + first_component(rest, false)
    } else if path.len() >= 2 && is_sep(path[0], false) && is_sep(path[1], false) {
        let rest = slice_subrange(path, 2, path.len());
        assert(rest@ == path@.skip(2));
        if first_component(rest, false) > 0 && second_component(rest, false) > 0 {
            2 + share_component(rest, false)
        } else {
            0
        }
    } else if starts_with_drive(path) {
        2
    } else {
        0
    }
}

// ---------------------------------------------------------------------
// File names
// ---------------------------------------------------------------------

/// The last component of a path, empty behind a trailing separator.
pub open spec fn tail_component(path: Seq<char>, verbatim: bool) -> Seq<char>
    decreases path.len(),
{
    if path.len() == 0 || separates(path.last(), verbatim) {
        Seq::empty()
    } else {
        tail_component(path.drop_last(), verbatim).push(path.last())
    }
}

/// The last component that is not empty; none where there is no such
/// component or where it leads to the parent. A component that is a single
/// dot does not count, but in a verbatim path it stands for no file.
pub open spec fn final_component(path: Seq<char>, verbatim: bool) -> Option<Seq<char>>
    decreases path.len(),
{
    let tail = tail_component(path, verbatim);
    if tail.len() == 0 || (tail == seq!['.'] && !verbatim) {
        if path.len() <= tail.len() {
            None
        } else {
            final_component(path.take(path.len() - tail.len() - 1), verbatim)
        }
    } else if tail == seq!['.'] || tail == seq!['.', '.'] {
        None
    } else {
        Some(tail)
    }
}

/// The file that a path names.
pub open spec fn file_name_of(path: Seq<char>) -> Option<Seq<char>> {
    final_component(path.skip(prefix_len(path)), is_verbatim(path))
}

/// Position of the last dot in a file name, or -1.
pub open spec fn last_dot(name: Seq<char>) -> int
    decreases name.len(),
{
    if name.len() == 0 || name.last() == '.' {
        name.len() - 1
    } else {
        last_dot(name.drop_last())
    }
}

/// A file name up to its extension. A dot at the front starts no extension.
pub open spec fn stem_of(name: Seq<char>) -> Seq<char> {
    if last_dot(name) <= 0 {
        name
    } else {
        name.take(last_dot(name))
    }
}

/// The extension of a file name with its dot; empty where it has none.
pub open spec fn dotted_extension(name: Seq<char>) -> Seq<char> {
    if last_dot(name) <= 0 {
        Seq::empty()
    } else {
        name.skip(last_dot(name))
    }
}

proof fn lemma_tail(path: Seq<char>, verbatim: bool)
    ensures
        tail_component(path, verbatim).len() <= path.len(),
        tail_component(path, verbatim) == path.skip(
            path.len() - tail_component(path, verbatim).len(),
        ),
        forall|i: int|
            path.len() - tail_component(path, verbatim).len() <= i < path.len() ==> !separates(
                path[i],
                verbatim,
            ),
        tail_component(path, verbatim).len() < path.len() ==> separates(
            path[path.len() - tail_component(path, verbatim).len() - 1],
            verbatim,
        ),
    decreases path.len(),
{
    if path.len() > 0 && !separates(path.last(), verbatim) {
        let front = path.drop_last();
        lemma_tail(front, verbatim);
        let from = path.len() - tail_component(path, verbatim).len();
        assert forall|i: int| from <= i < path.len() implies !separates(path[i], verbatim) by {
            if i < front.len() {
                assert(path[i] == front[i]);
            }
        }
    }
}

proof fn lemma_tail_is(path: Seq<char>, verbatim: bool, at: int)
    requires
        0 <= at <= path.len(),
        at > 0 ==> separates(path[at - 1], verbatim),
        forall|i: int| at <= i < path.len() ==> !separates(path[i], verbatim),
    ensures
        tail_component(path, verbatim) == path.skip(at),
{
    lemma_tail(path, verbatim);
    let from = path.len() - tail_component(path, verbatim).len();
    if from < at {
        assert(!separates(path[at - 1], verbatim));
    } else if at < from {
        assert(!separates(path[from - 1], verbatim));
    }
}

/// The file that a path names: its last component behind the prefix, where
/// separators and single dots at the end do not count. A path without such a
/// component, or one that ends with two dots, names none.
pub fn file_name(path: &str) -> (name: Option<String>)
    ensures
        string_view(name) == file_name_of(path@),
{
    let chars = chars_of(path);
    let from = prefix(chars.as_slice());
    let verbatim = chars.len() >= 4 && chars[0] == '\\' && chars[1] == '\\' && chars[2] == '?'
        && chars[3] == '\\';
    let ghost rest = path@.skip(prefix_len(path@));
    let mut end: usize = chars.len();
    assert(rest.take(end - from) == rest);
    while end > from
        invariant
            from <= end <= chars.len(),
            chars@ == path@,
            from == prefix_len(path@),
            verbatim == is_verbatim(path@),
            rest == path@.skip(from as int),
            final_component(rest, verbatim) == final_component(rest.take(end - from), verbatim),
        decreases end,
    {
        let ghost part = rest.take(end - from);
        let mut at: usize = end;
        while at > from && !is_sep(chars[at - 1], verbatim)
            invariant
                from <= at <= end <= chars.len(),
                chars@ == path@,
                rest == path@.skip(from as int),
                part == rest.take(end - from),
                forall|i: int| at - from <= i < part.len() ==> !separates(part[i], verbatim),
            decreases at,
        {
            assert(part[at - 1 - from] == chars@[at - 1]);
            at -= 1;
        }
        proof {
            if at > from {
                assert(part[at - 1 - from] == chars@[at - 1]);
            }
            lemma_tail_is(part, verbatim, at - from);
            assert(part.skip(at - from) == chars@.subrange(at as int, end as int));
        }
        let tail = slice_subrange(chars.as_slice(), at, end);
        let dot = tail.len() == 1 && tail[0] == '.';
        let up = tail.len() == 2 && tail[0] == '.' && tail[1] == '.';
        proof {
            if dot {
                assert(tail@ == seq!['.']);
            }
            if up {
                assert(tail@ == seq!['.', '.']);
            }
        }
        if tail.len() > 0 && (verbatim || !dot) {
            if dot || up {
                return None;
            }
            return Some(string_of(tail));
        }
        if at == from {
            return None;
        }
        assert(part.take(part.len() - tail@.len() - 1) == rest.take(at - 1 - from));
        end = at - 1;
    }
    assert(rest.take(0) == Seq::<char>::empty());
    None
}

proof fn lemma_last_dot(name: Seq<char>)
    ensures
        -1 <= last_dot(name) < name.len(),
        last_dot(name) >= 0 ==> name[last_dot(name)] == '.',
        forall|i: int| last_dot(name) < i < name.len() ==> name[i] != '.',
    decreases name.len(),
{
    if name.len() > 0 && name.last() != '.' {
        let front = name.drop_last();
        lemma_last_dot(front);
        assert forall|i: int| last_dot(name) < i < name.len() implies name[i] != '.' by {
            if i < front.len() {
                assert(name[i] == front[i]);
            }
        }
    }
}

/// Position of the last dot, one up; zero where there is none.
fn dot_end(name: &[char]) -> (n: usize)
    ensures
        n <= name.len(),
        n == last_dot(name@) + 1,
{
    let mut n: usize = name.len();
    assert(name@.take(n as int) == name@);
    while n > 0 && name[n - 1] != '.'
        invariant
            n <= name.len(),
            last_dot(name@) == last_dot(name@.take(n as int)),
        decreases n,
    {
        assert(name@.take(n as int).drop_last() == name@.take(n - 1));
        n -= 1;
    }
    n
}

/// The name of the file that a path names, without the extension; empty
/// where the path names no file.
pub fn file_stem(path: &str) -> (stem: String)
    ensures
        stem@ == (match file_name_of(path@) {
            Some(name) => stem_of(name),
            None => Seq::empty(),
        }),
{
    match file_name(path) {
        Some(name) => {
            let chars = chars_of(name.as_str());
            let n = dot_end(chars.as_slice());
            if n <= 1 {
                name
            } else {
                string_of(slice_subrange(chars.as_slice(), 0, n - 1))
            }
        },
        None => String::new(),
    }
}

/// The extension of a file name with its dot; empty where it has none.
pub fn extension(name: &str) -> (ext: String)
    ensures
        ext@ == dotted_extension(name@),
{
    let chars = chars_of(name);
    let n = dot_end(chars.as_slice());
    if n <= 1 {
        String::new()
    } else {
        string_of(slice_subrange(chars.as_slice(), n - 1, chars.len()))
    }
}

/// An extension starts with its dot and is the end of the file name.
pub proof fn lemma_dotted_extension(name: Seq<char>)
    ensures
        dotted_extension(name).len() <= name.len(),
        dotted_extension(name) == name.skip(name.len() - dotted_extension(name).len()),
        dotted_extension(name).len() > 0 ==> dotted_extension(name)[0] == '.',
{
    lemma_last_dot(name);
    assert(name.skip(name.len() as int) == Seq::<char>::empty());
}

/// A file name is its stem followed by its extension.
pub proof fn law_stem_and_extension(name: Seq<char>)
    ensures
        stem_of(name) + dotted_extension(name) == name,
{
    lemma_last_dot(name);
}

/// A dot and what follows it without another dot are the extension.
pub proof fn lemma_extension_behind(head: Seq<char>, tail: Seq<char>)
    requires
        head.len() > 0,
        forall|i: int| 0 <= i < tail.len() ==> tail[i] != '.',
    ensures
        dotted_extension(head + seq!['.'] + tail) == seq!['.'] + tail,
{
    let name = head + seq!['.'] + tail;
    lemma_last_dot(name);
    let at = last_dot(name);
    assert(name[head.len() as int] == '.');
    if at > head.len() {
        assert(name[at] == tail[at - head.len() - 1]);
    }
    assert(name.skip(head.len() as int) == seq!['.'] + tail);
}

/// The name of a file is not empty, holds no separator and leads nowhere
/// else.
pub proof fn law_file_name_is_one_component(path: Seq<char>)
    ensures
        file_name_of(path) matches Some(name) ==> {
            &&& name.len() > 0
            &&& name != seq!['.']
            &&& name != seq!['.', '.']
            &&& forall|i: int| 0 <= i < name.len() ==> !separates(name[i], is_verbatim(path))
        },
{
    lemma_final_component(path.skip(prefix_len(path)), is_verbatim(path));
}

proof fn lemma_final_component(path: Seq<char>, verbatim: bool)
    ensures
        final_component(path, verbatim) matches Some(name) ==> {
            &&& name.len() > 0
            &&& name != seq!['.']
            &&& name != seq!['.', '.']
            &&& forall|i: int| 0 <= i < name.len() ==> !separates(name[i], verbatim)
        },
    decreases path.len(),
{
    lemma_tail(path, verbatim);
    let tail = tail_component(path, verbatim);
    if tail.len() == 0 || (tail == seq!['.'] && !verbatim) {
        if path.len() > tail.len() {
            lemma_final_component(path.take(path.len() - tail.len() - 1), verbatim);
        }
    }
}

/// A single component names itself: one that is not empty, has no separator,
/// does not start with a drive and is neither one nor two dots.
pub proof fn law_components_name_themselves(name: Seq<char>)
    requires
        name.len() > 0,
        forall|i: int| 0 <= i < name.len() ==> !is_separator(name[i]),
        !has_drive(name),
        name != seq!['.'],
        name != seq!['.', '.'],
    ensures
        file_name_of(name) == Some(name),
{
    assert(name.skip(0) == name);
    lemma_tail_is(name, false, 0);
}

/// A file name ends with its extension at its last dot: the extension holds no
/// other dot, something stands in front of it, and a name without one has no
/// dot but at its start.
pub proof fn law_names_end_at_their_last_dot(name: Seq<char>)
    ensures
        stem_of(name) + dotted_extension(name) == name,
        dotted_extension(name).len() > 0 ==> dotted_extension(name)[0] == '.' && stem_of(name).len()
            > 0,
        forall|i: int|
            1 <= i < dotted_extension(name).len() ==> #[trigger] dotted_extension(name)[i] != '.',
        dotted_extension(name).len() == 0 ==> forall|i: int|
            1 <= i < name.len() ==> #[trigger] name[i] != '.',
{
    lemma_last_dot(name);
    law_stem_and_extension(name);
    let at = last_dot(name);
    if at > 0 {
        let ext = dotted_extension(name);
        assert forall|i: int| 1 <= i < ext.len() implies #[trigger] ext[i] != '.' by {
            assert(ext[i] == name[at + i]);
        }
    }
}

proof fn lemma_plain_prefix(path: Seq<char>)
    requires
        !(path.len() >= 2 && is_separator(path[0]) && is_separator(path[1])),
    ensures
        prefix_len(path) == (if has_drive(path) {
            2int
        } else {
            0
        }),
        !is_verbatim(path),
{
}

/// The file that a path names is what stands behind its last separator, be it
/// a slash or a backslash, whatever the directories are called; one that ends
/// with two dots names none. This is of paths that do not start with two
/// separators.
pub proof fn law_files_stand_behind_the_last_separator(
    head: Seq<char>,
    sep: char,
    name: Seq<char>,
)
    requires
        ({
            let path = head + seq![sep] + name;
            !(is_separator(path[0]) && is_separator(path[1]))
        }),
        sep == '/' || sep == '\\',
        name.len() > 0,
        forall|i: int| 0 <= i < name.len() ==> name[i] != '/' && name[i] != '\\',
        name != seq!['.'],
    ensures
        name != seq!['.', '.'] ==> file_name_of(head + seq![sep] + name) == Some(name),
        name == seq!['.', '.'] ==> file_name_of(head + seq![sep] + name) is None,
{
    let path = head + seq![sep] + name;
    lemma_plain_prefix(path);
    let from = prefix_len(path);
    assert(path[head.len() as int] == sep);
    assert(from <= head.len());
    let rest = path.skip(from);
    let at = head.len() + 1 - from;
    assert(rest[at - 1] == sep);
    assert forall|i: int| at <= i < rest.len() implies !separates(rest[i], false) by {
        assert(rest[i] == name[i - at]);
    }
    lemma_tail_is(rest, false, at);
    assert(rest.skip(at) == name);
}

/// Separators and single dots at the end of a path do not count. This is of
/// paths that do not start with two separators.
pub proof fn law_trailing_separators_do_not_count(path: Seq<char>, sep: char)
    requires
        path.len() > 0,
        !(is_separator(path[0]) && (path.len() == 1 || is_separator(path[1]))),
        sep == '/' || sep == '\\',
    ensures
        file_name_of(path.push(sep)) == file_name_of(path),
        file_name_of(path.push(sep).push('.')) == file_name_of(path),
{
    let a = path.push(sep);
    let b = a.push('.');
    lemma_plain_prefix(path);
    lemma_plain_prefix(a);
    lemma_plain_prefix(b);
    assert(has_drive(a) == has_drive(path));
    assert(has_drive(b) == has_drive(path));
    let from = prefix_len(path);
    let rest = path.skip(from);
    assert(a.skip(from) == rest.push(sep));
    assert(b.skip(from) == rest.push(sep).push('.'));
    lemma_tail_is(rest.push(sep), false, rest.len() as int + 1);
    assert(rest.push(sep).take(rest.len() as int) == rest);
    let dotted = rest.push(sep).push('.');
    lemma_tail_is(dotted, false, rest.len() as int + 1);
    assert(dotted.skip(rest.len() as int + 1) == seq!['.']);
    assert(dotted.take(rest.len() as int) == rest);
}

/// A share is no file, and a file on a share is.
pub proof fn law_shares_name_no_file(server: Seq<char>, share: Seq<char>, name: Seq<char>)
    requires
        server.len() > 0,
        share.len() > 0,
        name.len() > 0,
        forall|i: int| 0 <= i < server.len() ==> !is_separator(server[i]),
        forall|i: int| 0 <= i < share.len() ==> !is_separator(share[i]),
        forall|i: int| 0 <= i < name.len() ==> !is_separator(name[i]),
        server != seq!['.'],
        server != seq!['?'],
        name != seq!['.'],
        name != seq!['.', '.'],
    ensures
        file_name_of(seq!['\\', '\\'] + server + seq!['\\'] + share) is None,
        file_name_of(
            seq!['\\', '\\'] + server + seq!['\\'] + share + seq!['\\'] + name,
        ) == Some(name),
{
    let plain = seq!['\\', '\\'] + server + seq!['\\'] + share;
    let none = Seq::<char>::empty();
    assert(plain + none == plain);
    lemma_share_prefix(server, share, none);
    assert(plain.skip(prefix_len(plain)) == none);
    let tail = seq!['\\'] + name;
    let path = plain + tail;
    assert(path == plain + seq!['\\'] + name);
    lemma_share_prefix(server, share, tail);
    assert(path.skip(prefix_len(path)) == tail);
    assert forall|i: int| 1 <= i < tail.len() implies !separates(tail[i], false) by {
        assert(tail[i] == name[i - 1]);
    }
    lemma_tail_is(tail, false, 1);
    assert(tail.skip(1) == name);
}

proof fn lemma_share_prefix(server: Seq<char>, share: Seq<char>, tail: Seq<char>)
    requires
        server.len() > 0,
        share.len() > 0,
        forall|i: int| 0 <= i < server.len() ==> !is_separator(server[i]),
        forall|i: int| 0 <= i < share.len() ==> !is_separator(share[i]),
        server != seq!['.'],
        server != seq!['?'],
        tail.len() > 0 ==> tail[0] == '\\',
    ensures
        ({
            let path = seq!['\\', '\\'] + server + seq!['\\'] + share + tail;
            &&& prefix_len(path) == 3 + server.len() + share.len()
            &&& !is_verbatim(path)
        }),
{
    let path = seq!['\\', '\\'] + server + seq!['\\'] + share + tail;
    let rest = path.skip(2);
    let behind = share + tail;
    assert(rest == server + seq!['\\'] + behind);
    lemma_first_is(rest, server.len() as int);
    assert(rest.skip(server.len() as int + 1) == behind);
    lemma_first_is(behind, share.len() as int);
    assert(path[2] == server[0]);
    assert(path[3] == (if server.len() > 1 {
        server[1]
    } else {
        '\\'
    }));
    if server.len() == 1 {
        assert(server[0] == '.' ==> server == seq!['.']);
        assert(server[0] == '?' ==> server == seq!['?']);
    }
}

proof fn lemma_first_is(path: Seq<char>, n: int)
    requires
        0 <= n <= path.len(),
        n < path.len() ==> is_separator(path[n]),
        forall|i: int| 0 <= i < n ==> !is_separator(path[i]),
    ensures
        first_len(path, false) == n,
{
    lemma_first_len(path, false);
    let f = first_len(path, false);
    if f < n {
        assert(!is_separator(path[f]));
    } else if n < f {
        assert(!separates(path[n], false));
    }
}

/// A device is no file, and neither is the drive of a verbatim path; what
/// stands behind them is.
pub proof fn law_devices_and_drives_name_no_file(device: Seq<char>, letter: char, name: Seq<char>)
    requires
        forall|i: int| 0 <= i < device.len() ==> !is_separator(device[i]),
        is_letter(letter),
        name.len() > 0,
        forall|i: int| 0 <= i < name.len() ==> !is_separator(name[i]),
        name != seq!['.'],
        name != seq!['.', '.'],
    ensures
        file_name_of(seq!['\\', '\\', '.', '\\'] + device) is None,
        file_name_of(seq!['\\', '\\', '.', '\\'] + device + seq!['\\'] + name) == Some(name),
        file_name_of(seq!['\\', '\\', '?', '\\', letter, ':']) is None,
        file_name_of(seq!['\\', '\\', '?', '\\', letter, ':', '\\'] + name) == Some(name),
{
    let none = Seq::<char>::empty();
    let tail = seq!['\\'] + name;
    assert forall|i: int| 1 <= i < tail.len() implies !separates(tail[i], false) && !separates(
        tail[i],
        true,
    ) by {
        assert(tail[i] == name[i - 1]);
    }
    lemma_tail_is(tail, false, 1);
    lemma_tail_is(tail, true, 1);
    assert(tail.skip(1) == name);
    let start = seq!['\\', '\\', '.', '\\'];
    let a = start + device;
    assert(a.skip(4) == device);
    lemma_first_is(device, device.len() as int);
    assert(a.skip(a.len() as int) == none);
    let b = a + tail;
    assert(b == start + device + seq!['\\'] + name);
    assert(b.skip(4) == device + tail);
    lemma_first_is(device + tail, device.len() as int);
    assert(b.skip(4 + device.len() as int) == tail);
    let c = seq!['\\', '\\', '?', '\\', letter, ':'];
    assert(c.skip(4) == seq![letter, ':']);
    assert(c.skip(6) == none);
    let d = seq!['\\', '\\', '?', '\\', letter, ':', '\\'] + name;
    assert(d.skip(6) == tail);
    assert(d.skip(4)[0] == letter && d.skip(4)[1] == ':' && d.skip(4)[2] == '\\');
}

} // verus!
