//! Text as a sequence of characters: ASCII case, white space, splitting,
//! and decimal numbers.
use vstd::prelude::*;
use vstd::slice::slice_subrange;

verus! {

/// `String::push`: the character is appended at the end of the string.
pub assume_specification[ String::push ](s: &mut String, c: char)
    ensures
        final(s)@ == old(s)@.push(c),
;

// ---------------------------------------------------------------------
// Models
// ---------------------------------------------------------------------

/// ASCII upper case of one character; every other character is unchanged.
pub open spec fn upper_char(c: char) -> char {
    if 'a' <= c && c <= 'z' {
        ((c as u32 - 32) as u32) as char
    } else {
        c
    }
}

/// ASCII lower case of one character; every other character is unchanged.
pub open spec fn lower_char(c: char) -> char {
    if 'A' <= c && c <= 'Z' {
        ((c as u32 + 32) as u32) as char
    } else {
        c
    }
}

/// ASCII upper case of a text.
pub open spec fn upper(s: Seq<char>) -> Seq<char> {
    s.map_values(|c: char| upper_char(c))
}

/// ASCII lower case of a text.
pub open spec fn lower(s: Seq<char>) -> Seq<char> {
    s.map_values(|c: char| lower_char(c))
}

/// The characters with the Unicode property `White_Space`.
pub open spec fn is_white(c: char) -> bool {
    let n = c as u32;
    ||| 0x09 <= n <= 0x0D
    ||| n == 0x20
    ||| n == 0x85
    ||| n == 0xA0
    ||| n == 0x1680
    ||| 0x2000 <= n <= 0x200A
    ||| n == 0x2028
    ||| n == 0x2029
    ||| n == 0x202F
    ||| n == 0x205F
    ||| n == 0x3000
}

/// The characters of the Unicode category `Cc` (control codes).
pub open spec fn is_control_char(c: char) -> bool {
    let n = c as u32;
    n <= 0x1F || 0x7F <= n <= 0x9F
}

/// Position of the first `c` in `s`, or `s.len()` when there is none.
pub open spec fn find(s: Seq<char>, c: char) -> int
    decreases s.len(),
{
    if s.len() == 0 || s[0] == c {
        0
    } else {
        1 + find(s.skip(1), c)
    }
}

/// The pieces of `s` between the separators; at least one piece.
pub open spec fn split(s: Seq<char>, sep: char) -> Seq<Seq<char>>
    decreases s.len(),
{
    let at = find(s, sep);
    if 0 <= at < s.len() {
        seq![s.take(at)] + split(s.skip(at + 1), sep)
    } else {
        seq![s]
    }
}

/// `s` without its leading white space.
pub open spec fn trim_start(s: Seq<char>) -> Seq<char>
    decreases s.len(),
{
    if s.len() > 0 && is_white(s[0]) {
        trim_start(s.skip(1))
    } else {
        s
    }
}

/// `s` without its trailing white space.
pub open spec fn trim_end(s: Seq<char>) -> Seq<char>
    decreases s.len(),
{
    if s.len() > 0 && is_white(s.last()) {
        trim_end(s.drop_last())
    } else {
        s
    }
}

/// `s` without white space at either end.
pub open spec fn trim(s: Seq<char>) -> Seq<char> {
    trim_end(trim_start(s))
}

/// Whether `s` ends with `tail`.
pub open spec fn ends_with(s: Seq<char>, tail: Seq<char>) -> bool {
    tail.len() <= s.len() && s.skip(s.len() - tail.len()) == tail
}

/// The decimal digit `d` (0 to 9) as a character.
pub open spec fn digit_char(d: nat) -> char {
    ((48 + d) as u32) as char
}

/// `n` in decimal, without leading zeros.
pub open spec fn decimal(n: nat) -> Seq<char>
    decreases n,
{
    if n < 10 {
        seq![digit_char(n)]
    } else {
        decimal(n / 10).push(digit_char(n % 10))
    }
}

/// Whether `c` is one of `0` to `9`.
pub open spec fn is_digit(c: char) -> bool {
    '0' <= c && c <= '9'
}

/// Whether every character of `s` is a decimal digit.
pub open spec fn all_digits(s: Seq<char>) -> bool {
    forall|i: int| 0 <= i < s.len() ==> is_digit(#[trigger] s[i])
}

/// The number that a text of decimal digits denotes.
pub open spec fn digits_value(s: Seq<char>) -> nat
    decreases s.len(),
{
    if s.len() == 0 {
        0
    } else {
        10 * digits_value(s.drop_last()) + (s.last() as u32 - 48) as nat
    }
}

/// `s` without one leading `+`.
pub open spec fn unsigned_part(s: Seq<char>) -> Seq<char> {
    if s.len() > 0 && s[0] == '+' {
        s.skip(1)
    } else {
        s
    }
}

/// The 32-bit number that `s` denotes: an optional `+` followed by at least
/// one decimal digit and nothing else, with a value that fits.
pub open spec fn parsed_u32(s: Seq<char>) -> Option<u32> {
    let digits = unsigned_part(s);
    if digits.len() > 0 && all_digits(digits) && digits_value(digits) <= u32::MAX {
        Some(digits_value(digits) as u32)
    } else {
        None
    }
}

/// The views of a list of strings.
pub open spec fn texts(v: Seq<String>) -> Seq<Seq<char>> {
    v.map_values(|s: String| s@)
}

// ---------------------------------------------------------------------
// Characters
// ---------------------------------------------------------------------

/// ASCII upper case of one character.
pub fn to_upper_char(c: char) -> (r: char)
    ensures
        r == upper_char(c),
{
    if 'a' <= c && c <= 'z' {
        (c as u8 - 32) as char
    } else {
        c
    }
}

/// ASCII lower case of one character.
pub fn to_lower_char(c: char) -> (r: char)
    ensures
        r == lower_char(c),
{
    if 'A' <= c && c <= 'Z' {
        (c as u8 + 32) as char
    } else {
        c
    }
}

/// Whether `c` is white space.
pub fn is_whitespace(c: char) -> (r: bool)
    ensures
        r == is_white(c),
{
    let n: u32 = c as u32;
    (0x09 <= n && n <= 0x0D) || n == 0x20 || n == 0x85 || n == 0xA0 || n == 0x1680 || (0x2000 <= n
        && n <= 0x200A) || n == 0x2028 || n == 0x2029 || n == 0x202F || n == 0x205F || n == 0x3000
}

/// Whether `c` is a control code.
pub fn is_control(c: char) -> (r: bool)
    ensures
        r == is_control_char(c),
{
    let n: u32 = c as u32;
    n <= 0x1F || (0x7F <= n && n <= 0x9F)
}

// ---------------------------------------------------------------------
// Conversions
// ---------------------------------------------------------------------

/// The characters of a string.
pub fn chars_of(s: &str) -> (v: Vec<char>)
    ensures
        v@ == s@,
{
    let mut v: Vec<char> = Vec::new();
    for c in it: s.chars()
        invariant
            v@ == it.seq().take(it.index()),
            it.seq() == s@,
    {
        v.push(c);
    }
    v
}

/// The string made of the given characters.
pub fn string_of(v: &[char]) -> (s: String)
    ensures
        s@ == v@,
{
    let mut s = String::new();
    for i in 0..v.len()
        invariant
            s@ == v@.take(i as int),
    {
        s.push(v[i]);
    }
    assert(v@.take(v.len() as int) == v@);
    s
}

/// Appends a string to a list of characters.
pub fn push_text(out: &mut Vec<char>, s: &str)
    ensures
        final(out)@ == old(out)@ + s@,
{
    for c in it: s.chars()
        invariant
            out@ == old(out)@ + it.seq().take(it.index()),
            it.seq() == s@,
    {
        out.push(c);
    }
}

/// Appends characters to a list of characters.
pub fn push_chars(out: &mut Vec<char>, s: &[char])
    ensures
        final(out)@ == old(out)@ + s@,
{
    for i in 0..s.len()
        invariant
            out@ == old(out)@ + s@.take(i as int),
    {
        out.push(s[i]);
    }
    assert(s@.take(s.len() as int) == s@);
}

/// Whether the characters are those of the string.
pub fn same_text(v: &[char], s: &str) -> (r: bool)
    ensures
        r == (v@ == s@),
{
    let t = chars_of(s);
    if v.len() != t.len() {
        return false;
    }
    for i in 0..v.len()
        invariant
            v@.len() == t@.len(),
            t@ == s@,
            forall|j: int| 0 <= j < i ==> v@[j] == t@[j],
    {
        if v[i] != t[i] {
            return false;
        }
    }
    assert(v@ == t@);
    true
}

/// Whether two strings hold the same characters.
pub fn same_str(a: &str, b: &str) -> (r: bool)
    ensures
        r == (a@ == b@),
{
    let v = chars_of(a);
    same_text(v.as_slice(), b)
}

/// Whether a text has no characters.
pub fn is_empty(s: &str) -> (r: bool)
    ensures
        r == (s@.len() == 0),
{
    chars_of(s).len() == 0
}

/// ASCII upper case of a text.
pub fn to_upper(s: &[char]) -> (r: Vec<char>)
    ensures
        r@ == upper(s@),
{
    let mut r: Vec<char> = Vec::new();
    for i in 0..s.len()
        invariant
            r@ == upper(s@).take(i as int),
    {
        r.push(to_upper_char(s[i]));
    }
    assert(upper(s@).take(s.len() as int) == upper(s@));
    r
}

/// ASCII lower case of a text.
pub fn to_lower(s: &[char]) -> (r: Vec<char>)
    ensures
        r@ == lower(s@),
{
    let mut r: Vec<char> = Vec::new();
    for i in 0..s.len()
        invariant
            r@ == lower(s@).take(i as int),
    {
        r.push(to_lower_char(s[i]));
    }
    assert(lower(s@).take(s.len() as int) == lower(s@));
    r
}

// ---------------------------------------------------------------------
// Searching and splitting
// ---------------------------------------------------------------------

/// What `find` promises: no earlier occurrence, and an occurrence at the
/// position when there is one.
pub proof fn lemma_find(s: Seq<char>, c: char)
    ensures
        0 <= find(s, c) <= s.len(),
        find(s, c) < s.len() ==> s[find(s, c)] == c,
        forall|i: int| 0 <= i < find(s, c) ==> s[i] != c,
    decreases s.len(),
{
    if s.len() > 0 && s[0] != c {
        let t = s.skip(1);
        lemma_find(t, c);
        assert forall|i: int| 0 <= i < find(s, c) implies s[i] != c by {
            if i > 0 {
                assert(s[i] == t[i - 1]);
            }
        }
    }
}

/// The first occurrence is where nothing precedes it.
pub proof fn lemma_find_is(s: Seq<char>, c: char, at: int)
    requires
        0 <= at <= s.len(),
        at < s.len() ==> s[at] == c,
        forall|i: int| 0 <= i < at ==> s[i] != c,
    ensures
        find(s, c) == at,
{
    lemma_find(s, c);
    let f = find(s, c);
    if f < at {
        assert(s[f] != c);
    } else if at < f {
        assert(s[at] != c);
    }
}

/// Position of the first `c` in `s`, or the length when there is none.
pub fn find_char(s: &[char], c: char) -> (at: usize)
    ensures
        at == find(s@, c),
        at <= s.len(),
{
    let mut i: usize = 0;
    while i < s.len() && s[i] != c
        invariant
            i <= s.len(),
            forall|j: int| 0 <= j < i ==> s@[j] != c,
        decreases s.len() - i,
    {
        i += 1;
    }
    proof {
        lemma_find_is(s@, c, i as int);
    }
    i
}

/// The pieces of `s` between the separators.
pub fn split_text(s: &[char], sep: char) -> (parts: Vec<Vec<char>>)
    ensures
        parts@.map_values(|p: Vec<char>| p@) == split(s@, sep),
{
    let mut parts: Vec<Vec<char>> = Vec::new();
    let mut from: usize = 0;
    proof {
        assert(s@.skip(0) == s@);
        assert(parts@.map_values(|p: Vec<char>| p@) == Seq::<Seq<char>>::empty());
        assert(Seq::<Seq<char>>::empty() + split(s@, sep) == split(s@, sep));
    }
    loop
        invariant
            from <= s.len(),
            parts@.map_values(|p: Vec<char>| p@) + split(s@.skip(from as int), sep) == split(
                s@,
                sep,
            ),
        decreases s.len() - from,
    {
        let rest = slice_subrange(s, from, s.len());
        assert(rest@ == s@.skip(from as int));
        let at = find_char(rest, sep);
        let piece = slice_subrange(rest, 0, at);
        let mut part: Vec<char> = Vec::new();
        push_chars(&mut part, piece);
        let ghost before = parts@.map_values(|p: Vec<char>| p@);
        assert(part@ == rest@.take(at as int));
        parts.push(part);
        let ghost after = parts@.map_values(|p: Vec<char>| p@);
        assert(after == before + seq![rest@.take(at as int)]);
        if at == rest.len() {
            assert(rest@.take(at as int) == rest@);
            assert(split(rest@, sep) == seq![rest@]);
            return parts;
        }
        proof {
            let tail = split(rest@.skip(at + 1), sep);
            assert(split(rest@, sep) == seq![rest@.take(at as int)] + tail);
            assert(before + (seq![rest@.take(at as int)] + tail) == (before + seq![
                rest@.take(at as int),
            ]) + tail);
            assert(rest@.skip(at + 1) == s@.skip(from + at + 1));
        }
        from = from + at + 1;
    }
}

/// A text without white space at either end.
pub fn trim_text(s: &[char]) -> (r: Vec<char>)
    ensures
        r@ == trim(s@),
{
    let mut from: usize = 0;
    assert(s@.skip(0) == s@);
    while from < s.len() && is_whitespace(s[from])
        invariant
            from <= s.len(),
            trim_start(s@.skip(from as int)) == trim_start(s@),
        decreases s.len() - from,
    {
        assert(s@.skip(from as int).skip(1) == s@.skip(from + 1));
        from += 1;
    }
    let ghost body = s@.skip(from as int);
    let mut to: usize = s.len();
    assert(body == s@.subrange(from as int, to as int));
    while to > from && is_whitespace(s[to - 1])
        invariant
            from <= to <= s.len(),
            trim_end(s@.subrange(from as int, to as int)) == trim_end(body),
        decreases to - from,
    {
        assert(s@.subrange(from as int, to as int).drop_last() == s@.subrange(
            from as int,
            to - 1,
        ));
        to -= 1;
    }
    let mut r: Vec<char> = Vec::new();
    push_chars(&mut r, slice_subrange(s, from, to));
    assert(r@ == s@.subrange(from as int, to as int));
    r
}

/// Whether `s` ends with `tail`.
pub fn has_suffix(s: &[char], tail: &[char]) -> (r: bool)
    ensures
        r == ends_with(s@, tail@),
{
    if tail.len() > s.len() {
        return false;
    }
    let from: usize = s.len() - tail.len();
    for i in 0..tail.len()
        invariant
            from + tail.len() == s.len(),
            forall|j: int| 0 <= j < i ==> s@[from + j] == tail@[j],
    {
        if s[from + i] != tail[i] {
            assert(s@.skip(from as int)[i as int] != tail@[i as int]);
            return false;
        }
    }
    assert(s@.skip(from as int) == tail@);
    true
}

// ---------------------------------------------------------------------
// Decimal numbers
// ---------------------------------------------------------------------

/// `n` in decimal.
pub fn decimal_text(n: u128) -> (r: Vec<char>)
    ensures
        r@ == decimal(n as nat),
    decreases n,
{
    let digit: u8 = (n % 10) as u8;
    let c: char = (48 + digit) as char;
    assert(c == digit_char(n as nat % 10));
    if n < 10 {
        let mut r: Vec<char> = Vec::new();
        r.push(c);
        assert(r@ == seq![digit_char(n as nat)]);
        r
    } else {
        let mut r = decimal_text(n / 10);
        r.push(c);
        r
    }
}

/// A longer text of digits denotes at least as large a number as its start.
proof fn lemma_digits_value_grows(s: Seq<char>, n: int)
    requires
        0 <= n <= s.len(),
    ensures
        digits_value(s.take(n)) <= digits_value(s),
    decreases s.len(),
{
    if n == s.len() {
        assert(s.take(n) == s);
    } else {
        lemma_digits_value_grows(s.drop_last(), n);
        assert(s.drop_last().take(n) == s.take(n));
    }
}

/// The 32-bit number that a text denotes, if it does.
pub fn parse_u32(s: &[char]) -> (r: Option<u32>)
    ensures
        r == parsed_u32(s@),
{
    let start: usize = if s.len() > 0 && s[0] == '+' {
        1
    } else {
        0
    };
    let digits = slice_subrange(s, start, s.len());
    assert(digits@ == unsigned_part(s@));
    if digits.len() == 0 {
        return None;
    }
    let mut value: u64 = 0;
    for i in 0..digits.len()
        invariant
            value == digits_value(digits@.take(i as int)),
            value <= u32::MAX,
            digits@ == unsigned_part(s@),
            forall|j: int| 0 <= j < i ==> is_digit(#[trigger] digits@[j]),
    {
        let c = digits[i];
        if c < '0' || c > '9' {
            assert(!is_digit(digits@[i as int]));
            return None;
        }
        let d: u64 = c as u64 - 48;
        proof {
            let next = digits@.take(i + 1);
            assert(next.drop_last() == digits@.take(i as int));
            assert(next.last() == c);
        }
        value = value * 10 + d;
        if value > 0xFFFF_FFFF {
            proof {
                lemma_digits_value_grows(digits@, i + 1);
            }
            return None;
        }
    }
    assert(digits@.take(digits.len() as int) == digits@);
    Some(value as u32)
}

// ---------------------------------------------------------------------
// Laws
// ---------------------------------------------------------------------

/// A decimal text consists of digits, at least one, and denotes its number.
pub proof fn lemma_decimal(n: nat)
    ensures
        decimal(n).len() > 0,
        all_digits(decimal(n)),
        digits_value(decimal(n)) == n,
    decreases n,
{
    if n < 10 {
        let s = decimal(n);
        assert(s.drop_last().len() == 0);
        assert(digits_value(s.drop_last()) == 0);
        assert(s.last() == digit_char(n));
    } else {
        lemma_decimal(n / 10);
        let s = decimal(n);
        assert(s.drop_last() == decimal(n / 10));
        assert(s.last() == digit_char(n % 10));
        assert forall|i: int| 0 <= i < s.len() implies is_digit(#[trigger] s[i]) by {
            if i < s.len() - 1 {
                assert(s[i] == decimal(n / 10)[i]);
            }
        }
    }
}

/// Parsing undoes printing, for every 32-bit number.
pub proof fn law_parse_decimal(n: u32)
    ensures
        parsed_u32(decimal(n as nat)) == Some(n),
{
    lemma_decimal(n as nat);
    let s = decimal(n as nat);
    assert(is_digit(s[0]));
    assert(unsigned_part(s) == s);
}

/// Different numbers have different decimal texts.
pub proof fn law_decimal_is_injective(a: nat, b: nat)
    requires
        decimal(a) == decimal(b),
    ensures
        a == b,
{
    lemma_decimal(a);
    lemma_decimal(b);
}

/// A text without the separator ends at the first separator behind it.
pub proof fn lemma_find_after(head: Seq<char>, c: char, rest: Seq<char>)
    requires
        forall|i: int| 0 <= i < head.len() ==> head[i] != c,
    ensures
        find(head + seq![c] + rest, c) == head.len(),
        find(head, c) == head.len(),
{
    let s = head + seq![c] + rest;
    assert(s[head.len() as int] == c);
    assert forall|i: int| 0 <= i < head.len() implies s[i] != c by {
        assert(s[i] == head[i]);
    }
    lemma_find_is(s, c, head.len() as int);
    lemma_find_is(head, c, head.len() as int);
}

/// Splitting takes off a first piece without the separator.
pub proof fn lemma_split_cons(head: Seq<char>, c: char, rest: Seq<char>)
    requires
        forall|i: int| 0 <= i < head.len() ==> head[i] != c,
    ensures
        split(head + seq![c] + rest, c) == seq![head] + split(rest, c),
        split(head, c) == seq![head],
{
    lemma_find_after(head, c, rest);
    let s = head + seq![c] + rest;
    assert(s.take(head.len() as int) == head);
    assert(s.skip(head.len() as int + 1) == rest);
}

/// Text without white space at its ends stays as it is.
pub proof fn lemma_trim_same(s: Seq<char>)
    requires
        s.len() > 0 ==> !is_white(s[0]) && !is_white(s.last()),
    ensures
        trim(s) == s,
{
}

proof fn lemma_lower_char_kind(c: char)
    ensures
        is_white(lower_char(c)) == is_white(c),
        !('a' <= lower_char(c) && lower_char(c) <= 'z') ==> lower_char(c) == c,
        lower_char(lower_char(c)) == lower_char(c),
{
}

proof fn lemma_find_lower(s: Seq<char>, c: char)
    requires
        lower_char(c) == c,
        !('a' <= c && c <= 'z'),
    ensures
        find(lower(s), c) == find(s, c),
{
    let l = lower(s);
    lemma_find(s, c);
    let f = find(s, c);
    assert forall|i: int| 0 <= i < f implies l[i] != c by {
        lemma_lower_char_kind(s[i]);
        assert(s[i] != c);
    }
    lemma_find_is(l, c, f);
}

/// Splitting at a character that is no letter and lower case commute.
pub proof fn lemma_split_lower(s: Seq<char>, c: char)
    requires
        lower_char(c) == c,
        !('a' <= c && c <= 'z'),
    ensures
        split(lower(s), c) == split(s, c).map_values(|p: Seq<char>| lower(p)),
    decreases s.len(),
{
    lemma_find_lower(s, c);
    lemma_find(s, c);
    let f = find(s, c);
    let g = |p: Seq<char>| lower(p);
    if f < s.len() {
        let rest = s.skip(f + 1);
        lemma_split_lower(rest, c);
        assert(lower(s).skip(f + 1) == lower(rest));
        assert(lower(s).take(f) == lower(s.take(f)));
        assert((seq![s.take(f)] + split(rest, c)).map_values(g) == seq![lower(s.take(f))] + split(
            rest,
            c,
        ).map_values(g));
    } else {
        assert(seq![s].map_values(g) == seq![lower(s)]);
    }
}

/// Trimming and lower case commute.
pub proof fn lemma_trim_lower(s: Seq<char>)
    ensures
        trim(lower(s)) == lower(trim(s)),
{
    lemma_trim_start_lower(s);
    lemma_trim_end_lower(trim_start(s));
}

proof fn lemma_trim_start_lower(s: Seq<char>)
    ensures
        trim_start(lower(s)) == lower(trim_start(s)),
    decreases s.len(),
{
    if s.len() > 0 {
        lemma_lower_char_kind(s[0]);
        if is_white(s[0]) {
            lemma_trim_start_lower(s.skip(1));
            assert(lower(s).skip(1) == lower(s.skip(1)));
        }
    }
}

proof fn lemma_trim_end_lower(s: Seq<char>)
    ensures
        trim_end(lower(s)) == lower(trim_end(s)),
    decreases s.len(),
{
    if s.len() > 0 {
        lemma_lower_char_kind(s.last());
        if is_white(s.last()) {
            lemma_trim_end_lower(s.drop_last());
            assert(lower(s).drop_last() == lower(s.drop_last()));
        }
    }
}

/// Lower case is settled after one step.
pub proof fn lemma_lower_lower(s: Seq<char>)
    ensures
        lower(lower(s)) == lower(s),
{
    assert forall|i: int| 0 <= i < s.len() implies lower(lower(s))[i] == lower(s)[i] by {
        lemma_lower_char_kind(s[i]);
    }
    assert(lower(lower(s)) == lower(s));
}

/// Case folding touches letters only, and either case leads to the other:
/// nothing but the case of a letter is ever lost.
pub proof fn law_cases_lead_to_each_other(s: Seq<char>)
    ensures
        lower(upper(s)) == lower(s),
        upper(lower(s)) == upper(s),
        upper(s).len() == s.len(),
        lower(s).len() == s.len(),
        forall|i: int|
            0 <= i < s.len() && !('a' <= s[i] && s[i] <= 'z') ==> #[trigger] upper(s)[i] == s[i],
        forall|i: int|
            0 <= i < s.len() && !('A' <= s[i] && s[i] <= 'Z') ==> #[trigger] lower(s)[i] == s[i],
        forall|i: int|
            0 <= i < s.len() && 'a' <= s[i] && s[i] <= 'z' ==> (#[trigger] upper(s)[i]) as u32 + 32
                == s[i] as u32,
{
    assert(lower(upper(s)) =~= lower(s));
    assert(upper(lower(s)) =~= upper(s));
}

/// Leading zeros and a sign make no difference to a number that is read, and
/// a number that is too large is none.
pub proof fn law_numbers_read_back(zeros: Seq<char>, n: nat)
    requires
        forall|i: int| 0 <= i < zeros.len() ==> zeros[i] == '0',
    ensures
        n <= u32::MAX ==> parsed_u32(zeros + decimal(n)) == Some(n as u32),
        n <= u32::MAX ==> parsed_u32(seq!['+'] + zeros + decimal(n)) == Some(n as u32),
        n > u32::MAX ==> parsed_u32(zeros + decimal(n)) is None,
{
    lemma_decimal(n);
    lemma_leading_zeros(zeros, decimal(n));
    let s = zeros + decimal(n);
    assert forall|i: int| 0 <= i < s.len() implies is_digit(#[trigger] s[i]) by {
        if i < zeros.len() {
            assert(s[i] == '0');
        } else {
            assert(s[i] == decimal(n)[i - zeros.len()]);
        }
    }
    assert(is_digit(s[0]));
    assert(unsigned_part(s) == s);
    let signed = seq!['+'] + zeros + decimal(n);
    assert(signed.skip(1) == s);
}

proof fn lemma_leading_zeros(zeros: Seq<char>, s: Seq<char>)
    requires
        forall|i: int| 0 <= i < zeros.len() ==> zeros[i] == '0',
    ensures
        digits_value(zeros + s) == digits_value(s),
    decreases zeros.len() + s.len(),
{
    let t = zeros + s;
    if s.len() > 0 {
        assert(t.drop_last() == zeros + s.drop_last());
        assert(t.last() == s.last());
        lemma_leading_zeros(zeros, s.drop_last());
    } else if zeros.len() > 0 {
        assert(t.drop_last() == zeros.drop_last() + s);
        assert(t.last() == '0');
        lemma_leading_zeros(zeros.drop_last(), s);
    }
}

/// A text is a number only where, behind one sign at most, it has a digit and
/// nothing but digits.
pub proof fn law_only_digits_are_numbers(s: Seq<char>)
    requires
        parsed_u32(s) is Some,
    ensures
        s.len() > 0,
        s[0] == '+' ==> s.len() > 1,
        s[0] == '+' || ('0' <= s[0] && s[0] <= '9'),
        forall|i: int| 1 <= i < s.len() ==> '0' <= #[trigger] s[i] && s[i] <= '9',
{
    let digits = unsigned_part(s);
    assert forall|i: int| 1 <= i < s.len() implies '0' <= #[trigger] s[i] && s[i] <= '9' by {
        if s[0] == '+' {
            assert(is_digit(digits[i - 1]));
        } else {
            assert(is_digit(digits[i]));
        }
    }
    assert(is_digit(digits[0]));
}

/// A printed number has no leading zero.
pub proof fn law_decimals_are_short(n: nat)
    ensures
        n > 0 ==> decimal(n)[0] != '0',
        n == 0 ==> decimal(n) == seq!['0'],
    decreases n,
{
    lemma_decimal(n);
    if n >= 10 {
        law_decimals_are_short(n / 10);
        lemma_decimal(n / 10);
        assert(decimal(n)[0] == decimal(n / 10)[0]);
    } else {
        assert(decimal(n)[0] == digit_char(n));
    }
}

/// Trimming takes off the white space around a text and nothing else.
pub proof fn law_trimming_takes_off_white_space(
    before: Seq<char>,
    text: Seq<char>,
    after: Seq<char>,
)
    requires
        forall|i: int| 0 <= i < before.len() ==> is_white(before[i]),
        forall|i: int| 0 <= i < after.len() ==> is_white(after[i]),
        text.len() > 0 ==> !is_white(text[0]) && !is_white(text.last()),
    ensures
        trim(before + text + after) == text,
    decreases before.len() + after.len(),
{
    let s = before + text + after;
    if before.len() > 0 {
        let rest = before.skip(1);
        assert forall|i: int| 0 <= i < rest.len() implies is_white(rest[i]) by {
            assert(rest[i] == before[i + 1]);
        }
        law_trimming_takes_off_white_space(rest, text, after);
        assert(is_white(s[0])) by {
            assert(s[0] == before[0]);
        }
        assert(s.skip(1) == rest + text + after);
    } else if text.len() > 0 {
        assert(s[0] == text[0]);
        assert(s == text + after);
        lemma_trim_end_of(text, after);
    } else {
        assert(s == after);
        lemma_trim_white(after);
        assert(text == Seq::<char>::empty());
    }
}

proof fn lemma_trim_end_of(text: Seq<char>, after: Seq<char>)
    requires
        text.len() > 0,
        !is_white(text.last()),
        forall|i: int| 0 <= i < after.len() ==> is_white(after[i]),
    ensures
        trim_end(text + after) == text,
    decreases after.len(),
{
    let s = text + after;
    if after.len() > 0 {
        assert(s.last() == after.last());
        assert(s.drop_last() == text + after.drop_last());
        lemma_trim_end_of(text, after.drop_last());
    } else {
        assert(s == text);
    }
}

proof fn lemma_trim_white(s: Seq<char>)
    requires
        forall|i: int| 0 <= i < s.len() ==> is_white(s[i]),
    ensures
        trim(s) == Seq::<char>::empty(),
    decreases s.len(),
{
    if s.len() > 0 {
        let rest = s.skip(1);
        assert forall|i: int| 0 <= i < rest.len() implies is_white(rest[i]) by {
            assert(rest[i] == s[i + 1]);
        }
        lemma_trim_white(rest);
    }
}

/// A text ends with another exactly where it is some text followed by it.
pub proof fn law_endings_are_at_the_end(head: Seq<char>, tail: Seq<char>, s: Seq<char>)
    ensures
        ends_with(head + tail, tail),
        ends_with(s, tail) ==> s == s.take(s.len() - tail.len()) + tail,
{
    assert((head + tail).skip(head.len() as int) == tail);
    if ends_with(s, tail) {
        let n = s.len() - tail.len();
        assert(s == s.take(n) + s.skip(n));
    }
}

/// The pieces of a text, put together with the separator between them, are
/// the text again, and no piece holds the separator.
pub proof fn law_pieces_join_again(s: Seq<char>, sep: char)
    ensures
        split(s, sep).len() > 0,
        joined(split(s, sep), sep) == s,
        forall|i: int, j: int|
            0 <= i < split(s, sep).len() && 0 <= j < split(s, sep)[i].len() ==> #[trigger] split(
                s,
                sep,
            )[i][j] != sep,
    decreases s.len(),
{
    lemma_find(s, sep);
    let at = find(s, sep);
    let pieces = split(s, sep);
    if at < s.len() {
        let rest = s.skip(at + 1);
        law_pieces_join_again(rest, sep);
        let others = split(rest, sep);
        assert(pieces.skip(1) == others);
        assert(pieces[0] == s.take(at));
        assert(s == s.take(at) + seq![sep] + rest);
        assert forall|i: int, j: int|
            0 <= i < pieces.len() && 0 <= j < pieces[i].len() implies #[trigger] pieces[i][j]
            != sep by {
            if i > 0 {
                assert(pieces[i] == others[i - 1]);
                assert(others[i - 1][j] != sep);
            } else {
                assert(pieces[0][j] == s[j]);
            }
        }
    }
}

/// Pieces with a separator between them.
pub open spec fn joined(pieces: Seq<Seq<char>>, sep: char) -> Seq<char>
    decreases pieces.len(),
{
    if pieces.len() == 0 {
        Seq::empty()
    } else if pieces.len() == 1 {
        pieces[0]
    } else {
        pieces[0] + seq![sep] + joined(pieces.skip(1), sep)
    }
}

/// Nothing is left of a text by trimming exactly where all of it is white
/// space.
pub proof fn law_blank_texts_are_trimmed_away(s: Seq<char>)
    ensures
        trim(s).len() == 0 <==> forall|i: int| 0 <= i < s.len() ==> is_white(#[trigger] s[i]),
{
    if forall|i: int| 0 <= i < s.len() ==> is_white(#[trigger] s[i]) {
        lemma_trim_white(s);
    }
    if trim(s).len() == 0 {
        lemma_trimmed_is_white(s);
    }
}

proof fn lemma_trimmed_is_white(s: Seq<char>)
    requires
        trim(s).len() == 0,
    ensures
        forall|i: int| 0 <= i < s.len() ==> is_white(#[trigger] s[i]),
    decreases s.len(),
{
    if s.len() > 0 && is_white(s[0]) {
        let rest = s.skip(1);
        lemma_trimmed_is_white(rest);
        assert forall|i: int| 0 <= i < s.len() implies is_white(#[trigger] s[i]) by {
            if i > 0 {
                assert(s[i] == rest[i - 1]);
            }
        }
    } else if s.len() > 0 {
        lemma_trim_end_keeps_first(s);
    }
}

proof fn lemma_trim_end_keeps_first(s: Seq<char>)
    requires
        s.len() > 0,
        !is_white(s[0]),
    ensures
        trim_end(s).len() > 0,
    decreases s.len(),
{
    if is_white(s.last()) {
        assert(s.len() > 1);
        lemma_trim_end_keeps_first(s.drop_last());
    }
}

} // verus!
