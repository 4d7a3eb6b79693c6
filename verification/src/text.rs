//! Building text one character at a time.
//!
//! Every string this program stores or shows is described by the sequence of
//! characters it holds. The functions here append to a `String` and say exactly
//! which characters were added.

use vstd::prelude::*;

verus! {

/// `String::push`: appends the given character to the end of the string.
pub assume_specification[ String::push ](s: &mut String, c: char)
    ensures
        final(s)@ == old(s)@.push(c),
;

// ---- models -----------------------------------------------------------------

/// The character that stands for the decimal digit `d`.
pub open spec fn digit_char(d: int) -> char {
    (48 + d) as char
}

/// `n` written in decimal, without leading zeros.
pub open spec fn decimal(n: nat) -> Seq<char>
    decreases n,
{
    if n < 10 {
        seq![digit_char(n as int)]
    } else {
        decimal(n / 10).push(digit_char((n % 10) as int))
    }
}

/// `n` in decimal, with a minus sign when it is negative.
pub open spec fn signed_decimal(n: int) -> Seq<char> {
    if n < 0 {
        seq!['-'] + decimal((-n) as nat)
    } else {
        decimal(n as nat)
    }
}

/// `c`, `count` times over.
pub open spec fn repeated(c: char, count: int) -> Seq<char> {
    Seq::new(
        if count > 0 {
            count as nat
        } else {
            0
        },
        |i: int| c,
    )
}

/// `n` in decimal, with zeros in front of it up to `width` characters.
pub open spec fn zero_padded(n: nat, width: nat) -> Seq<char> {
    repeated('0', width - decimal(n).len()) + decimal(n)
}

/// `n` in decimal, with zeros up to `width` characters behind the sign, if it has one.
pub open spec fn padded_signed(n: int, width: nat) -> Seq<char> {
    if n < 0 {
        seq!['-'] + zero_padded((-n) as nat, (width - 1) as nat)
    } else {
        zero_padded(n as nat, width)
    }
}

/// `text` set to the right of a column of `width` characters.
pub open spec fn right_aligned(text: Seq<char>, width: nat) -> Seq<char> {
    repeated(' ', width - text.len()) + text
}

/// `text` set to the left of a column of `width` characters.
pub open spec fn left_aligned(text: Seq<char>, width: nat) -> Seq<char> {
    text + repeated(' ', width - text.len())
}

/// The character that stands for the hexadecimal digit `d`.
pub open spec fn hex_char(d: int, upper: bool) -> char {
    if d < 10 {
        digit_char(d)
    } else if upper {
        (55 + d) as char
    } else {
        (87 + d) as char
    }
}

/// The four hexadecimal digits of a 16-bit number.
pub open spec fn hex4(n: u16, upper: bool) -> Seq<char> {
    seq![
        hex_char(n as int / 4096, upper),
        hex_char(n as int / 256 % 16, upper),
        hex_char(n as int / 16 % 16, upper),
        hex_char(n as int % 16, upper),
    ]
}

/// The texts one after another, with `separator` between each two.
pub open spec fn joined(parts: Seq<Seq<char>>, separator: Seq<char>) -> Seq<char>
    decreases parts.len(),
{
    if parts.len() == 0 {
        seq![]
    } else if parts.len() == 1 {
        parts[0]
    } else {
        joined(parts.drop_last(), separator) + separator + parts.last()
    }
}

/// The characters that each of the strings holds.
pub open spec fn views(strings: Seq<String>) -> Seq<Seq<char>> {
    strings.map_values(|s: String| s@)
}

/// `text` begins with `prefix`.
pub open spec fn starts_with_spec(text: Seq<char>, prefix: Seq<char>) -> bool {
    prefix.len() <= text.len() && text.take(prefix.len() as int) == prefix
}

/// `text` ends with `suffix`.
pub open spec fn ends_with_spec(text: Seq<char>, suffix: Seq<char>) -> bool {
    suffix.len() <= text.len() && text.skip(text.len() - suffix.len()) == suffix
}

/// `text` with every `from` in it replaced by `to`, found from the left.
pub open spec fn replaced(text: Seq<char>, from: Seq<char>, to: Seq<char>) -> Seq<char>
    decreases text.len(),
{
    if from.len() == 0 || text.len() < from.len() {
        text
    } else if text.take(from.len() as int) == from {
        to + replaced(text.skip(from.len() as int), from, to)
    } else {
        seq![text[0]] + replaced(text.skip(1), from, to)
    }
}

/// All of them are decimal digits.
pub open spec fn all_digits(text: Seq<char>) -> bool {
    forall|i: int| 0 <= i < text.len() ==> '0' <= #[trigger] text[i] <= '9'
}

/// The number that decimal digits give.
pub open spec fn digits_value(text: Seq<char>) -> nat
    decreases text.len(),
{
    if text.len() == 0 {
        0
    } else {
        (10 * digits_value(text.drop_last()) + (text.last() as int - '0' as int)) as nat
    }
}

/// The digits behind a plus sign, if there is one in front of them.
pub open spec fn unsigned_digits(text: Seq<char>) -> Seq<char> {
    if text.len() > 1 && text[0] == '+' {
        text.skip(1)
    } else {
        text
    }
}

/// The 32-bit number that the text gives in decimal, if it does.
pub open spec fn parsed_u32(text: Seq<char>) -> Option<u32> {
    let digits = unsigned_digits(text);
    if digits.len() > 0 && all_digits(digits) && digits_value(digits) <= u32::MAX {
        Some(digits_value(digits) as u32)
    } else {
        None
    }
}

/// The 64-bit number that the text gives in decimal, if it does.
pub open spec fn parsed_u64(text: Seq<char>) -> Option<u64> {
    let digits = unsigned_digits(text);
    if digits.len() > 0 && all_digits(digits) && digits_value(digits) <= u64::MAX {
        Some(digits_value(digits) as u64)
    } else {
        None
    }
}

// ---- characters and strings ---------------------------------------------------

/// The characters of a string, in order.
pub fn chars_of(s: &str) -> (v: Vec<char>)
    ensures
        v@ == s@,
{
    let mut v: Vec<char> = Vec::new();
    for c in it: s.chars()
        invariant
            v@ == it.seq().take(it.index() as int),
    {
        v.push(c);
    }
    v
}

/// The string that holds exactly these characters.
pub fn string_of(chars: &[char]) -> (s: String)
    ensures
        s@ == chars@,
{
    let mut s = String::new();
    let mut i: usize = 0;
    while i < chars.len()
        invariant
            i <= chars@.len(),
            s@ == chars@.take(i as int),
        decreases chars@.len() - i,
    {
        s.push(chars[i]);
        i = i + 1;
        assert(s@ =~= chars@.take(i as int));
    }
    assert(chars@.take(chars@.len() as int) =~= chars@);
    s
}

/// Whether the two hold the same characters.
pub fn same_text(a: &str, b: &str) -> (r: bool)
    ensures
        r == (a@ == b@),
{
    a.to_owned() == b.to_owned()
}

/// Whether `text` begins with `prefix`.
pub fn starts_with(text: &str, prefix: &str) -> (r: bool)
    ensures
        r == starts_with_spec(text@, prefix@),
{
    let t = chars_of(text);
    let p = chars_of(prefix);
    if p.len() > t.len() {
        return false;
    }
    let mut i: usize = 0;
    while i < p.len()
        invariant
            i <= p@.len() <= t@.len(),
            t@ == text@,
            p@ == prefix@,
            forall|j: int| 0 <= j < i ==> p@[j] == t@[j],
        decreases p@.len() - i,
    {
        if p[i] != t[i] {
            assert(text@.take(prefix@.len() as int)[i as int] != prefix@[i as int]);
            return false;
        }
        i = i + 1;
    }
    assert(text@.take(prefix@.len() as int) =~= prefix@);
    true
}

/// Whether `text` ends with `suffix`.
pub fn ends_with(text: &str, suffix: &str) -> (r: bool)
    ensures
        r == ends_with_spec(text@, suffix@),
{
    let t = chars_of(text);
    let p = chars_of(suffix);
    if p.len() > t.len() {
        return false;
    }
    let off: usize = t.len() - p.len();
    let mut i: usize = 0;
    while i < p.len()
        invariant
            i <= p@.len() <= t@.len(),
            off == t@.len() - p@.len(),
            t@.len() <= usize::MAX,
            t@ == text@,
            p@ == suffix@,
            forall|j: int| 0 <= j < i ==> p@[j] == t@[off + j],
        decreases p@.len() - i,
    {
        if p[i] != t[off + i] {
            assert(text@.skip(off as int)[i as int] != suffix@[i as int]);
            return false;
        }
        i = i + 1;
    }
    assert(text@.skip(off as int) =~= suffix@);
    true
}

/// Appends `count` copies of `c`.
pub fn push_repeated(out: &mut String, c: char, count: usize)
    ensures
        final(out)@ == old(out)@ + repeated(c, count as int),
{
    let mut i: usize = 0;
    assert(out@ =~= old(out)@ + repeated(c, 0));
    while i < count
        invariant
            i <= count,
            out@ == old(out)@ + repeated(c, i as int),
        decreases count - i,
    {
        out.push(c);
        i = i + 1;
        assert(out@ =~= old(out)@ + repeated(c, i as int));
    }
}

// ---- numbers ------------------------------------------------------------------

/// Ten to the power of `k`.
pub open spec fn power_of_ten(k: nat) -> nat
    decreases k,
{
    if k == 0 {
        1
    } else {
        10 * power_of_ten((k - 1) as nat)
    }
}

/// A number below ten to the power of `k` takes at most `k` digits.
pub proof fn lemma_decimal_len(n: nat, k: nat)
    requires
        1 <= k,
        n < power_of_ten(k),
    ensures
        1 <= decimal(n).len() <= k,
    decreases k,
{
    if n >= 10 {
        if k == 1 {
            assert(power_of_ten(1) == 10) by {
                reveal_with_fuel(power_of_ten, 2);
            }
        }
        lemma_decimal_len(n / 10, (k - 1) as nat);
    }
}

/// The digits of a number give it back.
pub proof fn lemma_decimal_value(n: nat)
    ensures
        digits_value(decimal(n)) == n,
    decreases n,
{
    let text = decimal(n);
    if n < 10 {
        assert(text.drop_last() =~= seq![]);
        assert(digits_value(text.drop_last()) == 0);
    } else {
        lemma_decimal_value(n / 10);
        assert(text.drop_last() =~= decimal(n / 10));
    }
}

/// The last digit stands behind the others.
proof fn lemma_padded_step(n: nat, width: nat)
    requires
        2 <= width,
    ensures
        zero_padded(n, width) == zero_padded(n / 10, (width - 1) as nat).push(
            digit_char((n % 10) as int),
        ),
{
    assert(zero_padded(n, width) =~= zero_padded(n / 10, (width - 1) as nat).push(
        digit_char((n % 10) as int),
    ));
}

/// A number that fits into the width fills it with digits, which give it back.
pub proof fn lemma_padded(n: nat, width: nat)
    requires
        1 <= width,
        n < power_of_ten(width),
    ensures
        zero_padded(n, width).len() == width,
        all_digits(zero_padded(n, width)),
        digits_value(zero_padded(n, width)) == n,
    decreases width,
{
    let text = zero_padded(n, width);
    if width == 1 {
        assert(power_of_ten(1) == 10) by {
            reveal_with_fuel(power_of_ten, 2);
        }
        assert(text =~= seq![digit_char(n as int)]);
        assert(text.drop_last() =~= seq![]);
        assert(digits_value(text.drop_last()) == 0);
    } else {
        lemma_padded_step(n, width);
        lemma_padded(n / 10, (width - 1) as nat);
        assert(text.drop_last() =~= zero_padded(n / 10, (width - 1) as nat));
    }
}

/// Of two numbers in the same width the smaller comes first: the digits agree up to a
/// place where its digit is smaller.
pub proof fn lemma_padded_order(a: nat, b: nat, width: nat) -> (i: int)
    requires
        1 <= width,
        a < b < power_of_ten(width),
    ensures
        0 <= i < width,
        zero_padded(a, width).len() == width,
        zero_padded(b, width).len() == width,
        zero_padded(a, width).take(i) == zero_padded(b, width).take(i),
        zero_padded(a, width)[i] < zero_padded(b, width)[i],
    decreases width,
{
    let x = zero_padded(a, width);
    let y = zero_padded(b, width);
    lemma_padded(a, width);
    lemma_padded(b, width);
    if width == 1 {
        assert(power_of_ten(1) == 10) by {
            reveal_with_fuel(power_of_ten, 2);
        }
        assert(x =~= seq![digit_char(a as int)]);
        assert(y =~= seq![digit_char(b as int)]);
        assert(x.take(0) =~= y.take(0));
        0
    } else {
        lemma_padded_step(a, width);
        lemma_padded_step(b, width);
        let p = zero_padded(a / 10, (width - 1) as nat);
        let q = zero_padded(b / 10, (width - 1) as nat);
        lemma_padded(a / 10, (width - 1) as nat);
        if a / 10 < b / 10 {
            let i = lemma_padded_order(a / 10, b / 10, (width - 1) as nat);
            assert(x.take(i) =~= p.take(i));
            assert(y.take(i) =~= q.take(i));
            i
        } else {
            assert(a / 10 == b / 10);
            assert(x.take(width - 1) =~= p);
            assert(y.take(width - 1) =~= q);
            width - 1
        }
    }
}

/// No 64-bit number takes more than twenty digits.
pub proof fn lemma_u64_decimal_len(n: u64)
    ensures
        1 <= decimal(n as nat).len() <= 20,
{
    assert(power_of_ten(20) == 100_000_000_000_000_000_000) by {
        reveal_with_fuel(power_of_ten, 21);
    }
    lemma_decimal_len(n as nat, 20);
}

/// How many characters `n` takes in decimal.
pub fn decimal_width(n: u64) -> (w: usize)
    ensures
        w == decimal(n as nat).len(),
        1 <= w <= 20,
{
    proof {
        lemma_u64_decimal_len(n);
    }
    let mut w: usize = 1;
    let mut rest: u64 = n;
    while rest >= 10
        invariant
            w - 1 + decimal(rest as nat).len() == decimal(n as nat).len(),
            decimal(n as nat).len() <= 20,
            decimal(rest as nat).len() >= 1,
        decreases rest,
    {
        proof {
            lemma_u64_decimal_len((rest / 10) as u64);
        }
        rest = rest / 10;
        w = w + 1;
    }
    w
}

/// Appends `n` in decimal.
pub fn push_decimal(out: &mut String, n: u64)
    ensures
        final(out)@ == old(out)@ + decimal(n as nat),
    decreases n,
{
    if n >= 10 {
        push_decimal(out, n / 10);
    }
    out.push((48u8 + (n % 10) as u8) as char);
    assert(out@ =~= old(out)@ + decimal(n as nat));
}

/// Appends `n` in decimal, with a minus sign when it is negative.
pub fn push_signed(out: &mut String, n: i64)
    ensures
        final(out)@ == old(out)@ + signed_decimal(n as int),
{
    if n < 0 {
        out.push('-');
        let m: u64 = (-(n as i128)) as u64;
        push_decimal(out, m);
        assert(out@ =~= old(out)@ + signed_decimal(n as int));
    } else {
        push_decimal(out, n as u64);
    }
}

/// Appends `n` in decimal, with zeros in front of it up to `width` characters.
pub fn push_zero_padded(out: &mut String, n: u64, width: usize)
    ensures
        final(out)@ == old(out)@ + zero_padded(n as nat, width as nat),
{
    let w = decimal_width(n);
    if w < width {
        push_repeated(out, '0', width - w);
    }
    push_decimal(out, n);
    assert(out@ =~= old(out)@ + zero_padded(n as nat, width as nat));
}

/// Appends `n` in decimal, with zeros up to `width` characters behind the sign, if it has
/// one.
pub fn push_padded_signed(out: &mut String, n: i64, width: usize)
    requires
        width > 0,
    ensures
        final(out)@ == old(out)@ + padded_signed(n as int, width as nat),
{
    if n < 0 {
        out.push('-');
        push_zero_padded(out, (-(n as i128)) as u64, width - 1);
        assert(out@ =~= old(out)@ + padded_signed(n as int, width as nat));
    } else {
        push_zero_padded(out, n as u64, width);
    }
}

/// `n` in decimal.
pub fn decimal_text(n: u64) -> (s: String)
    ensures
        s@ == decimal(n as nat),
{
    let mut s = String::new();
    push_decimal(&mut s, n);
    assert(s@ =~= decimal(n as nat));
    s
}

/// `n` in decimal, with a minus sign when it is negative.
pub fn signed_text(n: i64) -> (s: String)
    ensures
        s@ == signed_decimal(n as int),
{
    let mut s = String::new();
    push_signed(&mut s, n);
    assert(s@ =~= signed_decimal(n as int));
    s
}

fn hex_digit(d: u8, upper: bool) -> (c: char)
    requires
        d < 16,
    ensures
        c == hex_char(d as int, upper),
{
    if d < 10 {
        (48u8 + d) as char
    } else if upper {
        (55u8 + d) as char
    } else {
        (87u8 + d) as char
    }
}

/// Appends the four hexadecimal digits of `n`.
pub fn push_hex4(out: &mut String, n: u16, upper: bool)
    ensures
        final(out)@ == old(out)@ + hex4(n, upper),
{
    out.push(hex_digit((n / 4096) as u8, upper));
    out.push(hex_digit((n / 256 % 16) as u8, upper));
    out.push(hex_digit((n / 16 % 16) as u8, upper));
    out.push(hex_digit((n % 16) as u8, upper));
    assert(out@ =~= old(out)@ + hex4(n, upper));
}

// ---- columns and lists ----------------------------------------------------------

/// Appends `text`, set to the right of a column of `width` characters.
pub fn push_right_aligned(out: &mut String, text: &str, width: usize)
    ensures
        final(out)@ == old(out)@ + right_aligned(text@, width as nat),
{
    let len = text.unicode_len();
    if len < width {
        push_repeated(out, ' ', width - len);
    }
    out.append(text);
    assert(out@ =~= old(out)@ + right_aligned(text@, width as nat));
}

/// Appends `text`, set to the left of a column of `width` characters.
pub fn push_left_aligned(out: &mut String, text: &str, width: usize)
    ensures
        final(out)@ == old(out)@ + left_aligned(text@, width as nat),
{
    let len = text.unicode_len();
    out.append(text);
    if len < width {
        push_repeated(out, ' ', width - len);
    }
    assert(out@ =~= old(out)@ + left_aligned(text@, width as nat));
}

/// The texts one after another, with `separator` between each two.
pub fn join(parts: &Vec<String>, separator: &str) -> (s: String)
    ensures
        s@ == joined(views(parts@), separator@),
{
    let mut s = String::new();
    let mut i: usize = 0;
    assert(s@ =~= joined(views(parts@).take(0), separator@));
    while i < parts.len()
        invariant
            i <= parts@.len(),
            s@ == joined(views(parts@).take(i as int), separator@),
        decreases parts@.len() - i,
    {
        proof {
            let next = views(parts@).take(i + 1);
            assert(next.drop_last() =~= views(parts@).take(i as int));
            assert(next.last() == parts@[i as int]@);
        }
        if i > 0 {
            s.append(separator);
        }
        s.append(parts[i].as_str());
        assert(s@ =~= joined(views(parts@).take(i + 1), separator@));
        i = i + 1;
    }
    assert(views(parts@).take(parts@.len() as int) =~= views(parts@));
    s
}

/// `text` with every `from` in it replaced by `to`.
pub fn replace(text: &str, from: &str, to: &str) -> (s: String)
    ensures
        s@ == replaced(text@, from@, to@),
{
    let t = chars_of(text);
    let f = chars_of(from);
    let mut s = String::new();
    let mut i: usize = 0;
    let n: usize = f.len();
    if n == 0 {
        return text.to_owned();
    }
    assert(t@.skip(0) =~= t@);
    assert(s@ + replaced(t@.skip(0), f@, to@) =~= replaced(t@, f@, to@));
    while t.len() - i >= n
        invariant
            i <= t@.len(),
            n == f@.len(),
            n > 0,
            f@ == from@,
            s@ + replaced(t@.skip(i as int), f@, to@) == replaced(t@, f@, to@),
        decreases t@.len() - i,
    {
        let ghost rest = t@.skip(i as int);
        let ghost before = s@;
        let mut k: usize = 0;
        while k < n && t[i + k] == f[k]
            invariant
                k <= n == f@.len(),
                i + n <= t.len() == t@.len(),
                forall|j: int| 0 <= j < k ==> t@[i + j] == #[trigger] f@[j],
            decreases n - k,
        {
            k = k + 1;
        }
        if k == n {
            assert(rest.take(n as int) =~= f@);
            s.append(to);
            assert(rest.skip(n as int) =~= t@.skip(i + n));
            assert(s@ + replaced(t@.skip(i + n), f@, to@) =~= before + replaced(rest, f@, to@));
            i = i + n;
        } else {
            assert(rest.take(n as int)[k as int] != f@[k as int]);
            s.push(t[i]);
            assert(rest.skip(1) =~= t@.skip(i + 1));
            assert(s@ + replaced(t@.skip(i + 1), f@, to@) =~= before + replaced(rest, f@, to@));
            i = i + 1;
        }
    }
    let ghost rest = t@.skip(i as int);
    let ghost start = s@;
    let ghost from_i = i as int;
    assert(replaced(rest, f@, to@) == rest);
    while i < t.len()
        invariant
            from_i <= i <= t@.len(),
            rest == t@.skip(from_i),
            0 <= from_i <= t@.len(),
            s@ == start + rest.take(i - from_i),
        decreases t@.len() - i,
    {
        s.push(t[i]);
        i = i + 1;
        assert(s@ =~= start + rest.take(i - from_i));
    }
    assert(rest.take(t@.len() - from_i) =~= rest);
    s
}

/// The 64-bit number that the text gives in decimal, if it does.
pub fn parse_u64(text: &str) -> (n: Option<u64>)
    ensures
        n == parsed_u64(text@),
{
    let t = chars_of(text);
    let start: usize = if t.len() > 1 && t[0] == '+' {
        1
    } else {
        0
    };
    let ghost digits = unsigned_digits(t@);
    assert(digits =~= t@.skip(start as int));
    if t.len() == 0 {
        return None;
    }
    let mut value: u128 = 0;
    let mut fits = true;
    let mut i: usize = start;
    assert(digits.take(0) =~= seq![]);
    while i < t.len()
        invariant
            start <= i <= t@.len(),
            digits == t@.skip(start as int),
            digits == unsigned_digits(t@),
            t@ == text@,
            all_digits(digits.take(i - start)),
            fits ==> value == digits_value(digits.take(i - start)) && value <= u64::MAX,
            !fits ==> digits_value(digits.take(i - start)) > u64::MAX,
        decreases t@.len() - i,
    {
        let c: char = t[i];
        assert(digits[i - start] == c);
        if !('0' <= c && c <= '9') {
            return None;
        }
        let ghost next = digits.take(i + 1 - start);
        assert(next.drop_last() =~= digits.take(i - start));
        assert(next.last() == c);
        if fits {
            value = value * 10 + (c as u32 - '0' as u32) as u128;
            if value > u64::MAX as u128 {
                fits = false;
            }
        }
        i = i + 1;
    }
    assert(digits.take(i - start) =~= digits);
    if fits {
        Some(value as u64)
    } else {
        None
    }
}

/// The 32-bit number that the text gives in decimal, if it does.
pub fn parse_u32(text: &str) -> (n: Option<u32>)
    ensures
        n == parsed_u32(text@),
{
    match parse_u64(text) {
        Some(n) => if n <= u32::MAX as u64 {
            Some(n as u32)
        } else {
            None
        },
        None => None,
    }
}

/// The text holds no character.
pub fn is_blank(s: &str) -> (r: bool)
    ensures
        r == (s@.len() == 0),
{
    s.unicode_len() == 0
}

/// Text set to the right ends the column, text set to the left begins it, and the rest of
/// the column is blank. Text longer than the column stands as it is.
pub proof fn law_aligned_text_fills_its_column(text: Seq<char>, width: nat)
    ensures
        right_aligned(text, width).len() == if text.len() < width {
            width
        } else {
            text.len()
        },
        left_aligned(text, width).len() == right_aligned(text, width).len(),
        right_aligned(text, width).skip(right_aligned(text, width).len() - text.len()) == text,
        left_aligned(text, width).take(text.len() as int) == text,
        forall|i: int|
            0 <= i < width - text.len() ==> #[trigger] right_aligned(text, width)[i] == ' ',
        forall|i: int|
            text.len() <= i < width ==> #[trigger] left_aligned(text, width)[i] == ' ',
{
    assert(right_aligned(text, width).skip(right_aligned(text, width).len() - text.len()) =~= text);
    assert(left_aligned(text, width).take(text.len() as int) =~= text);
}

/// A number written in decimal reads back as itself, with a plus sign in front too; text
/// with anything but digits gives no number.
pub proof fn law_written_numbers_read_back(n: u64, text: Seq<char>, i: int)
    ensures
        parsed_u64(decimal(n as nat)) == Some(n),
        parsed_u64(seq!['+'] + decimal(n as nat)) == Some(n),
        n <= 0xFFFF_FFFF ==> parsed_u32(decimal(n as nat)) == Some(n as u32),
        n > 0xFFFF_FFFF ==> parsed_u32(decimal(n as nat)) is None,
        0 < i < text.len() && !('0' <= text[i] <= '9') ==> parsed_u64(text) is None && parsed_u32(
            text,
        ) is None,
        text.len() == 0 ==> parsed_u64(text) is None && parsed_u32(text) is None,
{
    let d = decimal(n as nat);
    lemma_decimal_value(n as nat);
    lemma_all_digits(n as nat);
    assert('0' <= d[0] <= '9');
    let plus = seq!['+'] + d;
    assert(plus.skip(1) =~= d);
    if 0 < i < text.len() && !('0' <= text[i] <= '9') {
        let digits = unsigned_digits(text);
        if text[0] == '+' {
            assert(digits[i - 1] == text[i]);
        } else {
            assert(digits[i] == text[i]);
        }
    }
}

proof fn lemma_all_digits(n: nat)
    ensures
        all_digits(decimal(n)),
        decimal(n).len() > 0,
    decreases n,
{
    if n >= 10 {
        lemma_all_digits(n / 10);
    }
}

/// A text begins and ends with the parts that it was made of.
pub proof fn law_a_text_begins_and_ends_with_its_parts(a: Seq<char>, b: Seq<char>)
    ensures
        starts_with_spec(a + b, a),
        ends_with_spec(a + b, b),
        starts_with_spec(a, b) ==> exists|rest: Seq<char>| a == #[trigger] (b + rest),
        ends_with_spec(a, b) ==> exists|rest: Seq<char>| a == #[trigger] (rest + b),
{
    assert((a + b).take(a.len() as int) =~= a);
    assert((a + b).skip((a + b).len() - b.len()) =~= b);
    if starts_with_spec(a, b) {
        assert(a =~= b + a.skip(b.len() as int));
    }
    if ends_with_spec(a, b) {
        assert(a =~= a.take(a.len() - b.len()) + b);
    }
}

/// What is replaced is replaced where it stands, and what follows is gone through in the
/// same way; a text too short to hold it stays as it is.
pub proof fn law_replacing_goes_from_the_left(from: Seq<char>, to: Seq<char>, rest: Seq<char>)
    requires
        from.len() > 0,
    ensures
        replaced(from + rest, from, to) == to + replaced(rest, from, to),
        rest.len() < from.len() ==> replaced(rest, from, to) == rest,
        replaced(from, from, to) == to,
{
    assert((from + rest).take(from.len() as int) =~= from);
    assert((from + rest).skip(from.len() as int) =~= rest);
    assert(from.take(from.len() as int) =~= from);
    assert(from.skip(from.len() as int) =~= seq![]);
    let none: Seq<char> = seq![];
    assert(replaced(none, from, to) == none);
    assert(replaced(from, from, to) =~= to);
}

/// Four hexadecimal digits tell numbers apart.
pub proof fn law_hexadecimal_digits_tell_numbers_apart(a: u16, b: u16, upper: bool)
    requires
        a != b,
    ensures
        hex4(a, upper) != hex4(b, upper),
        hex4(a, upper).len() == 4,
{
    law_hexadecimal_digits_read_back(a, upper, 0);
    law_hexadecimal_digits_read_back(b, upper, 0);
}

/// The value of a hexadecimal digit, either way it is written.
pub open spec fn hex_digit_value(c: char) -> int {
    if '0' <= c <= '9' {
        c as int - '0' as int
    } else if 'a' <= c <= 'f' {
        10 + (c as int - 'a' as int)
    } else {
        10 + (c as int - 'A' as int)
    }
}

/// Four hexadecimal digits read back, the highest first, and letters are large where they
/// were asked to be.
pub proof fn law_hexadecimal_digits_read_back(n: u16, upper: bool, i: int)
    requires
        0 <= i < 4,
    ensures
        ({
            let t = hex4(n, upper);
            &&& 4096 * hex_digit_value(t[0]) + 256 * hex_digit_value(t[1]) + 16 * hex_digit_value(
                t[2],
            ) + hex_digit_value(t[3]) == n
            &&& '0' <= t[i] <= '9' || (upper && 'A' <= t[i] <= 'F') || (!upper && 'a' <= t[i]
                <= 'f')
        }),
{
    let m = n as int;
    lemma_hex_digit_reads_back(m / 4096, upper);
    lemma_hex_digit_reads_back(m / 256 % 16, upper);
    lemma_hex_digit_reads_back(m / 16 % 16, upper);
    lemma_hex_digit_reads_back(m % 16, upper);
    assert(m == m / 4096 * 4096 + m / 256 % 16 * 256 + m / 16 % 16 * 16 + m % 16);
}

proof fn lemma_hex_digit_reads_back(d: int, upper: bool)
    requires
        0 <= d < 16,
    ensures
        ({
            let c = hex_char(d, upper);
            &&& hex_digit_value(c) == d
            &&& '0' <= c <= '9' || (upper && 'A' <= c <= 'F') || (!upper && 'a' <= c <= 'f')
        }),
{
}

}
