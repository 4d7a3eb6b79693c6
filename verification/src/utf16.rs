//! Text as Windows hands it over: 16-bit units, often cut at a zero.

use vstd::prelude::*;

verus! {

/// `char::from_u32`: the character with that number, and nothing where the
/// number is no character's.
pub assume_specification[ char::from_u32 ](i: u32) -> (r: Option<char>)
    ensures
        r == if i < 0xD800 || 0xE000 <= i <= 0x10FFFF {
            Some(i as char)
        } else {
            None
        },
;

/// The unit opens a pair.
pub open spec fn is_high(u: u16) -> bool {
    0xD800 <= u < 0xDC00
}

/// The unit closes a pair.
pub open spec fn is_low(u: u16) -> bool {
    0xDC00 <= u < 0xE000
}

/// The character that a pair of units stands for.
pub open spec fn paired(high: u16, low: u16) -> char {
    (0x10000 + (high - 0xD800) * 0x400 + (low - 0xDC00)) as char
}

/// The text that the units stand for. A unit of a pair without the other one
/// stands for the replacement character.
pub open spec fn decoded(units: Seq<u16>) -> Seq<char>
    decreases units.len(),
{
    if units.len() == 0 {
        seq![]
    } else if !is_high(units[0]) && !is_low(units[0]) {
        seq![units[0] as char] + decoded(units.skip(1))
    } else if is_high(units[0]) && units.len() > 1 && is_low(units[1]) {
        seq![paired(units[0], units[1])] + decoded(units.skip(2))
    } else {
        seq!['\u{FFFD}'] + decoded(units.skip(1))
    }
}

/// The units that a character takes.
pub open spec fn units_of(c: char) -> Seq<u16> {
    let n = c as int;
    if n < 0x10000 {
        seq![n as u16]
    } else {
        seq![(0xD800 + (n - 0x10000) / 0x400) as u16, (0xDC00 + (n - 0x10000) % 0x400) as u16]
    }
}

/// The units that a text takes.
pub open spec fn encoded(text: Seq<char>) -> Seq<u16>
    decreases text.len(),
{
    if text.len() == 0 {
        seq![]
    } else {
        encoded(text.drop_last()) + units_of(text.last())
    }
}

/// The units before the first zero, or all of them where there is none.
pub open spec fn until_zero(units: Seq<u16>) -> Seq<u16>
    decreases units.len(),
{
    if units.len() == 0 || units[0] == 0 {
        seq![]
    } else {
        seq![units[0]] + until_zero(units.skip(1))
    }
}

/// The character with this number.
fn char_of(n: u32) -> (c: char)
    requires
        n < 0xD800 || 0xE000 <= n <= 0x10FFFF,
    ensures
        c == n as char,
{
    match char::from_u32(n) {
        Some(c) => c,
        None => '\u{FFFD}',
    }
}

/// The text that the units stand for; what makes no sense becomes U+FFFD.
pub fn decode(units: &[u16]) -> (s: String)
    ensures
        s@ == decoded(units@),
{
    let mut s = String::new();
    let mut i: usize = 0;
    let len: usize = units.len();
    assert(units@.skip(0) =~= units@);
    assert(s@ + decoded(units@.skip(0)) =~= decoded(units@));
    while i < len
        invariant
            i <= len == units@.len(),
            s@ + decoded(units@.skip(i as int)) == decoded(units@),
        decreases len - i,
    {
        let u: u16 = units[i];
        let ghost before = s@;
        let ghost rest = units@.skip(i as int);
        assert(rest[0] == u);
        assert(rest.skip(1) =~= units@.skip(i + 1));
        if u < 0xD800 || u >= 0xE000 {
            s.push(char_of(u as u32));
            i = i + 1;
        } else if u < 0xDC00 && len - i > 1 && units[i + 1] >= 0xDC00 && units[i + 1] < 0xE000 {
            let low: u16 = units[i + 1];
            assert(rest[1] == low);
            assert(rest.skip(2) =~= units@.skip(i + 2));
            let n: u32 = 0x10000 + (u as u32 - 0xD800) * 0x400 + (low as u32 - 0xDC00);
            s.push(char_of(n));
            i = i + 2;
        } else {
            assert(i + 1 < len ==> rest[1] == units@[i + 1]);
            s.push('\u{FFFD}');
            i = i + 1;
        }
        assert(s@ =~= before + seq![s@.last()]);
        assert(decoded(rest) == seq![s@.last()] + decoded(units@.skip(i as int)));
        assert(s@ + decoded(units@.skip(i as int)) =~= before + decoded(rest));
    }
    assert(units@.skip(len as int) =~= seq![]);
    assert(s@ =~= decoded(units@));
    s
}

/// The units before the first zero.
pub fn before_zero(units: &[u16]) -> (n: usize)
    ensures
        n <= units@.len(),
        units@.take(n as int) == until_zero(units@),
{
    let mut n: usize = 0;
    assert(units@.skip(0) =~= units@);
    assert(units@.take(0) + until_zero(units@) =~= until_zero(units@));
    while n < units.len() && units[n] != 0
        invariant
            n <= units@.len(),
            units@.take(n as int) + until_zero(units@.skip(n as int)) == until_zero(units@),
        decreases units@.len() - n,
    {
        assert(units@.skip(n as int).skip(1) =~= units@.skip(n + 1));
        assert(units@.take(n as int) + seq![units@[n as int]] =~= units@.take(n + 1));
        assert(units@.take(n as int) + (seq![units@[n as int]] + until_zero(units@.skip(n + 1)))
            =~= units@.take(n + 1) + until_zero(units@.skip(n + 1)));
        n = n + 1;
    }
    assert(until_zero(units@.skip(n as int)) =~= seq![]);
    assert(units@.take(n as int) =~= until_zero(units@));
    n
}

/// The text before the first zero.
pub fn decode_until_zero(units: &[u16]) -> (s: String)
    ensures
        s@ == decoded(until_zero(units@)),
{
    let n: usize = before_zero(units);
    decode(&units[0..n])
}

/// Appends the units that the character takes.
fn push_units(v: &mut Vec<u16>, c: char)
    ensures
        final(v)@ == old(v)@ + units_of(c),
{
    let n: u32 = c as u32;
    if n < 0x10000 {
        v.push(n as u16);
    } else {
        v.push((0xD800 + (n - 0x10000) / 0x400) as u16);
        v.push((0xDC00 + (n - 0x10000) % 0x400) as u16);
    }
    assert(v@ =~= old(v)@ + units_of(c));
}

/// The units that the text takes, with a zero behind them.
pub fn wide(text: &str) -> (v: Vec<u16>)
    ensures
        v@ == encoded(text@).push(0),
{
    let mut v: Vec<u16> = Vec::new();
    for c in it: text.chars()
        invariant
            it.seq() == text@,
            v@ == encoded(text@.take(it.index() as int)),
    {
        push_units(&mut v, c);
        proof {
            let next = text@.take(it.index() + 1);
            assert(next.drop_last() =~= text@.take(it.index() as int));
            assert(next.last() == c);
        }
    }
    assert(text@.take(text@.len() as int) =~= text@);
    v.push(0);
    v
}

// ---- laws -------------------------------------------------------------------------

/// The units of one character in front are read as that character.
proof fn lemma_first(c: char, rest: Seq<u16>)
    ensures
        decoded(units_of(c) + rest) == seq![c] + decoded(rest),
{
    let units = units_of(c) + rest;
    let n = c as int;
    if n < 0x10000 {
        assert(units.skip(1) =~= rest);
        assert(units[0] == n);
    } else {
        assert(units.skip(2) =~= rest);
        assert(is_high(units[0]) && is_low(units[1]));
        assert(paired(units[0], units[1]) == c);
    }
}

proof fn lemma_encoded_first(text: Seq<char>)
    requires
        text.len() > 0,
    ensures
        encoded(text) == units_of(text[0]) + encoded(text.skip(1)),
    decreases text.len(),
{
    if text.len() == 1 {
        assert(text.drop_last() =~= seq![]);
        assert(text.skip(1) =~= seq![]);
        assert(encoded(text) =~= units_of(text[0]) + encoded(text.skip(1)));
    } else {
        lemma_encoded_first(text.drop_last());
        assert(text.skip(1).drop_last() =~= text.drop_last().skip(1));
        assert(encoded(text) =~= units_of(text[0]) + encoded(text.skip(1)));
    }
}

/// Text comes back from its units unchanged.
pub proof fn law_encoded_text_reads_back(text: Seq<char>)
    ensures
        decoded(encoded(text)) == text,
    decreases text.len(),
{
    if text.len() > 0 {
        lemma_encoded_first(text);
        lemma_first(text[0], encoded(text.skip(1)));
        law_encoded_text_reads_back(text.skip(1));
        assert(seq![text[0]] + text.skip(1) =~= text);
    }
}

/// A text without a zero in it comes back from its units and the zero behind them.
pub proof fn law_wide_text_reads_back(text: Seq<char>)
    requires
        forall|i: int| 0 <= i < text.len() ==> text[i] != '\0',
    ensures
        decoded(until_zero(encoded(text).push(0))) == text,
{
    let units = encoded(text);
    lemma_no_zero(text);
    lemma_until_zero(units);
    law_encoded_text_reads_back(text);
}

proof fn lemma_no_zero(text: Seq<char>)
    requires
        forall|i: int| 0 <= i < text.len() ==> text[i] != '\0',
    ensures
        forall|i: int| 0 <= i < encoded(text).len() ==> encoded(text)[i] != 0,
    decreases text.len(),
{
    if text.len() > 0 {
        lemma_no_zero(text.drop_last());
        lemma_units_not_zero(text.last());
        let before = encoded(text.drop_last());
        assert forall|i: int| 0 <= i < encoded(text).len() implies encoded(text)[i] != 0 by {
            if i >= before.len() {
                assert(encoded(text)[i] == units_of(text.last())[i - before.len()]);
            }
        }
    }
}

proof fn lemma_units_not_zero(c: char)
    requires
        c != '\0',
    ensures
        forall|i: int| 0 <= i < units_of(c).len() ==> units_of(c)[i] != 0,
{
}

proof fn lemma_until_zero(units: Seq<u16>)
    requires
        forall|i: int| 0 <= i < units.len() ==> units[i] != 0,
    ensures
        until_zero(units.push(0)) == units,
    decreases units.len(),
{
    let all = units.push(0);
    if units.len() > 0 {
        lemma_until_zero(units.skip(1));
        assert(all.skip(1) =~= units.skip(1).push(0));
        assert(seq![units[0]] + units.skip(1) =~= units);
    } else {
        assert(until_zero(all) =~= units);
    }
}

} // verus!
