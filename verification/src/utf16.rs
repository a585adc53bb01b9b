//! UTF-16, the encoding of the Windows interfaces.
use crate::text::chars_of;
use vstd::prelude::*;

verus! {

/// `char::from_u32`: the character with the given scalar value, or nothing
/// for a surrogate and for a value above the last code point.
pub assume_specification[ char::from_u32 ](i: u32) -> (r: Option<char>)
    ensures
        r == (if i <= 0xD7FF || 0xE000 <= i <= 0x10FFFF {
            Some(i as char)
        } else {
            None
        }),
;

/// The replacement character, U+FFFD.
pub const REPLACEMENT: char = '\u{FFFD}';

/// Whether `u` is the first half of a surrogate pair.
pub open spec fn is_high(u: u16) -> bool {
    0xD800 <= u <= 0xDBFF
}

/// Whether `u` is the second half of a surrogate pair.
pub open spec fn is_low(u: u16) -> bool {
    0xDC00 <= u <= 0xDFFF
}

/// The character that a surrogate pair stands for.
pub open spec fn pair_char(high: u16, low: u16) -> char {
    ((0x10000 + (high - 0xD800) * 0x400 + (low - 0xDC00)) as u32) as char
}

/// The code units of one character.
pub open spec fn units_of(c: char) -> Seq<u16> {
    let n = c as u32;
    if n < 0x10000 {
        seq![n as u16]
    } else {
        seq![(0xD800 + (n - 0x10000) / 0x400) as u16, (0xDC00 + (n - 0x10000) % 0x400) as u16]
    }
}

/// The code units of a text.
pub open spec fn encode(s: Seq<char>) -> Seq<u16>
    decreases s.len(),
{
    if s.len() == 0 {
        seq![]
    } else {
        units_of(s[0]) + encode(s.skip(1))
    }
}

/// The text that code units stand for; an unpaired surrogate reads as the
/// replacement character.
pub open spec fn decode(u: Seq<u16>) -> Seq<char>
    decreases u.len(),
{
    if u.len() == 0 {
        seq![]
    } else if !is_high(u[0]) && !is_low(u[0]) {
        seq![u[0] as char] + decode(u.skip(1))
    } else if is_high(u[0]) && u.len() > 1 && is_low(u[1]) {
        seq![pair_char(u[0], u[1])] + decode(u.skip(2))
    } else {
        seq![REPLACEMENT] + decode(u.skip(1))
    }
}

/// The code units in front of the first null, or all of them.
pub open spec fn until_null(u: Seq<u16>) -> Seq<u16>
    decreases u.len(),
{
    if u.len() == 0 || u[0] == 0 {
        seq![]
    } else {
        seq![u[0]] + until_null(u.skip(1))
    }
}

/// The null-terminated UTF-16 form of a string.
pub fn to_wide(s: &str) -> (wide: Vec<u16>)
    ensures
        wide@ == encode(s@).push(0),
{
    let chars = chars_of(s);
    let mut wide: Vec<u16> = Vec::new();
    assert(chars@.skip(0) == chars@);
    assert(wide@ + encode(s@) == encode(s@));
    for i in 0..chars.len()
        invariant
            chars@ == s@,
            wide@ + encode(chars@.skip(i as int)) == encode(chars@),
    {
        let ghost before = wide@;
        let n: u32 = chars[i] as u32;
        if n < 0x10000 {
            wide.push(n as u16);
        } else {
            let m: u32 = n - 0x10000;
            wide.push((0xD800 + m / 0x400) as u16);
            wide.push((0xDC00 + m % 0x400) as u16);
        }
        proof {
            let rest = chars@.skip(i as int);
            assert(rest.skip(1) == chars@.skip(i + 1));
            assert(wide@ == before + units_of(rest[0]));
            assert(before + (units_of(rest[0]) + encode(rest.skip(1))) == (before + units_of(
                rest[0],
            )) + encode(rest.skip(1)));
        }
    }
    assert(chars@.skip(chars.len() as int).len() == 0);
    assert(wide@ == encode(s@));
    wide.push(0);
    wide
}

/// The text that code units stand for.
pub fn from_utf16_lossy(u: &[u16]) -> (chars: Vec<char>)
    ensures
        chars@ == decode(u@),
{
    let mut chars: Vec<char> = Vec::new();
    let mut i: usize = 0;
    assert(u@.skip(0) == u@);
    assert(chars@ + decode(u@) == decode(u@));
    while i < u.len()
        invariant
            i <= u.len(),
            chars@ + decode(u@.skip(i as int)) == decode(u@),
        decreases u.len() - i,
    {
        let ghost before = chars@;
        let ghost rest = u@.skip(i as int);
        let a: u16 = u[i];
        let mut step: usize = 1;
        let mut n: u32 = 0xFFFD;
        if a < 0xD800 || a > 0xDFFF {
            n = a as u32;
        } else if a <= 0xDBFF && i + 1 < u.len() && u[i + 1] >= 0xDC00 && u[i + 1] <= 0xDFFF {
            n = 0x10000 + (a as u32 - 0xD800) * 0x400 + (u[i + 1] as u32 - 0xDC00);
            step = 2;
        }
        let c: char = match char::from_u32(n) {
            Some(c) => c,
            None => REPLACEMENT,
        };
        chars.push(c);
        proof {
            assert(rest.skip(step as int) == u@.skip(i + step));
            assert(decode(rest) == seq![c] + decode(rest.skip(step as int)));
            assert(before + (seq![c] + decode(rest.skip(step as int))) == before.push(c) + decode(
                rest.skip(step as int),
            ));
        }
        i = i + step;
    }
    assert(u@.skip(i as int).len() == 0);
    assert(chars@ + decode(u@.skip(i as int)) == chars@);
    chars
}

/// The code units in front of the first null, or all of them.
pub fn before_null(u: &[u16]) -> (r: Vec<u16>)
    ensures
        r@ == until_null(u@),
{
    let mut r: Vec<u16> = Vec::new();
    let mut i: usize = 0;
    assert(u@.skip(0) == u@);
    assert(r@ + until_null(u@) == until_null(u@));
    while i < u.len() && u[i] != 0
        invariant
            i <= u.len(),
            r@ + until_null(u@.skip(i as int)) == until_null(u@),
        decreases u.len() - i,
    {
        let ghost before = r@;
        let ghost rest = u@.skip(i as int);
        r.push(u[i]);
        proof {
            assert(rest.skip(1) == u@.skip(i + 1));
            assert(before + (seq![rest[0]] + until_null(rest.skip(1))) == before.push(rest[0])
                + until_null(rest.skip(1)));
        }
        i += 1;
    }
    assert(until_null(u@.skip(i as int)) == Seq::<u16>::empty());
    assert(r@ + Seq::<u16>::empty() == r@);
    r
}

// ---------------------------------------------------------------------
// Laws
// ---------------------------------------------------------------------

proof fn lemma_decode_units(c: char, rest: Seq<u16>)
    ensures
        decode(units_of(c) + rest) == seq![c] + decode(rest),
{
    let u = units_of(c) + rest;
    let n = c as u32;
    if n < 0x10000 {
        assert(u.skip(1) == rest);
        assert(u[0] == n as u16);
    } else {
        assert(u.skip(2) == rest);
        assert(u[0] == (0xD800 + (n - 0x10000) / 0x400) as u16);
        assert(u[1] == (0xDC00 + (n - 0x10000) % 0x400) as u16);
        assert(pair_char(u[0], u[1]) == c);
    }
}

/// Decoding undoes encoding, for every text.
pub proof fn law_decode_encode(s: Seq<char>)
    ensures
        decode(encode(s)) == s,
    decreases s.len(),
{
    if s.len() > 0 {
        law_decode_encode(s.skip(1));
        lemma_decode_units(s[0], encode(s.skip(1)));
        assert(seq![s[0]] + s.skip(1) == s);
    }
}

proof fn lemma_until_null_append(u: Seq<u16>, tail: Seq<u16>)
    requires
        forall|i: int| 0 <= i < u.len() ==> u[i] != 0,
    ensures
        until_null(u + tail) == u + until_null(tail),
    decreases u.len(),
{
    if u.len() == 0 {
        assert(u + tail == tail);
        assert(u + until_null(tail) == until_null(tail));
    } else {
        lemma_until_null_append(u.skip(1), tail);
        assert((u + tail).skip(1) == u.skip(1) + tail);
        assert(seq![u[0]] + (u.skip(1) + until_null(tail)) == u + until_null(tail));
    }
}

proof fn lemma_units_no_null(c: char)
    requires
        c != '\0',
    ensures
        forall|i: int| 0 <= i < units_of(c).len() ==> units_of(c)[i] != 0,
{
}

proof fn lemma_encode_no_null(s: Seq<char>)
    requires
        forall|i: int| 0 <= i < s.len() ==> s[i] != '\0',
    ensures
        forall|i: int| 0 <= i < encode(s).len() ==> encode(s)[i] != 0,
    decreases s.len(),
{
    if s.len() > 0 {
        let t = s.skip(1);
        assert forall|i: int| 0 <= i < t.len() implies t[i] != '\0' by {
            assert(t[i] == s[i + 1]);
        }
        lemma_encode_no_null(t);
        assert(s[0] != '\0');
        lemma_units_no_null(s[0]);
        assert forall|i: int| 0 <= i < encode(s).len() implies encode(s)[i] != 0 by {
            let k = units_of(s[0]).len();
            if i >= k {
                assert(encode(s)[i] == encode(t)[i - k]);
            } else {
                assert(encode(s)[i] == units_of(s[0])[i]);
            }
        }
    }
}

/// A text without a null character survives the null-terminated form: what
/// is read back up to the terminator, whatever follows it, is the text.
pub proof fn law_wide_round_trip(s: Seq<char>, after: Seq<u16>)
    requires
        forall|i: int| 0 <= i < s.len() ==> s[i] != '\0',
    ensures
        decode(until_null(encode(s).push(0) + after)) == s,
{
    lemma_encode_no_null(s);
    let tail = seq![0u16] + after;
    assert(encode(s).push(0) + after == encode(s) + tail);
    lemma_until_null_append(encode(s), tail);
    assert(until_null(tail) == Seq::<u16>::empty());
    assert(encode(s) + Seq::<u16>::empty() == encode(s));
    law_decode_encode(s);
}

/// A null ends a text, and only a null does.
pub proof fn law_null_ends_a_text(u: Seq<u16>, after: Seq<u16>)
    requires
        forall|i: int| 0 <= i < u.len() ==> u[i] != 0,
    ensures
        until_null(u) == u,
        until_null(u + seq![0u16] + after) == u,
{
    lemma_until_null_append(u, Seq::empty());
    assert(u + Seq::<u16>::empty() == u);
    let tail = seq![0u16] + after;
    lemma_until_null_append(u, tail);
    assert(u + seq![0u16] + after == u + tail);
    assert(until_null(tail) == Seq::<u16>::empty());
}

/// Every unit of a text is read on its own, except for the two of a pair: a
/// place that is not within a pair can be read from afresh.
pub proof fn law_decoding_goes_piecewise(u: Seq<u16>, v: Seq<u16>)
    requires
        !(u.len() > 0 && v.len() > 0 && 0xD800 <= u.last() <= 0xDBFF && 0xDC00 <= v[0] <= 0xDFFF),
    ensures
        decode(u + v) == decode(u) + decode(v),
    decreases u.len(),
{
    let w = u + v;
    if u.len() == 0 {
        assert(w == v);
        assert(decode(u) + decode(v) == decode(v));
    } else if is_high(u[0]) && u.len() > 1 && is_low(u[1]) {
        assert(w.skip(2) == u.skip(2) + v);
        law_decoding_goes_piecewise(u.skip(2), v);
        let c = seq![pair_char(u[0], u[1])];
        assert(c + (decode(u.skip(2)) + decode(v)) == c + decode(u.skip(2)) + decode(v));
    } else {
        assert(w.skip(1) == u.skip(1) + v);
        law_decoding_goes_piecewise(u.skip(1), v);
        let c = if !is_high(u[0]) && !is_low(u[0]) {
            seq![u[0] as char]
        } else {
            seq![REPLACEMENT]
        };
        if u.len() == 1 && w.len() > 1 {
            assert(w[1] == v[0]);
        }
        assert(decode(w) == c + decode(w.skip(1)));
        assert(decode(u) == c + decode(u.skip(1)));
        assert(c + (decode(u.skip(1)) + decode(v)) == c + decode(u.skip(1)) + decode(v));
    }
}

/// Half of a pair on its own reads as U+FFFD, any other unit as its character.
pub proof fn law_single_units(x: u16)
    ensures
        0xD800 <= x <= 0xDFFF ==> decode(seq![x]) == seq!['\u{FFFD}'],
        !(0xD800 <= x <= 0xDFFF) ==> decode(seq![x]) == seq![x as char],
{
    let u = seq![x];
    assert(u.skip(1) == Seq::<u16>::empty());
    assert(decode(u.skip(1)) == Seq::<char>::empty());
    assert(seq!['\u{FFFD}'] + Seq::<char>::empty() == seq!['\u{FFFD}']);
    assert(seq![x as char] + Seq::<char>::empty() == seq![x as char]);
}

/// A text without a null character survives a form without a terminator.
pub proof fn lemma_wide_without_null(s: Seq<char>)
    requires
        forall|i: int| 0 <= i < s.len() ==> s[i] != '\0',
    ensures
        decode(until_null(encode(s))) == s,
{
    lemma_encode_no_null(s);
    law_null_ends_a_text(encode(s), Seq::empty());
    law_decode_encode(s);
}

} // verus!
