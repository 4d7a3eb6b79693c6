//! What the instants promise as they are written: each can be read back, and they sort as
//! text in the order of time.

use vstd::prelude::*;

use crate::calendar::Date;

verus! {

/// The first millisecond of the year 10000, from which on the year takes five digits.
pub const END_OF_FOUR_DIGITS: u64 = 253_402_300_800_000;

/// The number that stands from `from` up to `to`.
pub open spec fn field(text: Seq<char>, from: int, to: int) -> nat {
    crate::text::digits_value(text.subrange(from, to))
}

/// The date that the text begins with.
pub open spec fn date_read(text: Seq<char>) -> Date {
    Date {
        year: field(text, 0, 4) as i64,
        month: field(text, 5, 7) as u64,
        day: field(text, 8, 10) as u64,
    }
}

/// The instant that the text tells, in milliseconds since 1970.
pub open spec fn instant_read(text: Seq<char>) -> int {
    date_read(text).day_number() * 86_400_000 + field(text, 11, 13) * 3_600_000 + field(
        text,
        14,
        16,
    ) * 60_000 + field(text, 17, 19) * 1000 + field(text, 20, 23)
}

/// The text has the form `YYYY-MM-DDTHH:MM:SS.mmmZ`, with digits for the letters but for
/// the `T` and the `Z`.
pub open spec fn has_iso_form(text: Seq<char>) -> bool {
    &&& text.len() == 24
    &&& text[4] == '-' && text[7] == '-' && text[10] == 'T'
    &&& text[13] == ':' && text[16] == ':' && text[19] == '.' && text[23] == 'Z'
    &&& crate::text::all_digits(text.subrange(0, 4))
    &&& crate::text::all_digits(text.subrange(5, 7))
    &&& crate::text::all_digits(text.subrange(8, 10))
    &&& crate::text::all_digits(text.subrange(11, 13))
    &&& crate::text::all_digits(text.subrange(14, 16))
    &&& crate::text::all_digits(text.subrange(17, 19))
    &&& crate::text::all_digits(text.subrange(20, 23))
}

/// The fields of an instant, in the order in which they are written.
spec fn parts(ms: int) -> Seq<nat> {
    let date = crate::calendar::date_of(crate::clock::day_of(ms));
    let tod = ms % 86_400_000;
    seq![
        date.year as nat,
        date.month as nat,
        date.day as nat,
        (tod / 3_600_000) as nat,
        (tod / 60_000 % 60) as nat,
        (tod / 1000 % 60) as nat,
        (tod % 1000) as nat,
    ]
}

/// Where a field starts, and how wide it is.
spec fn place(k: int) -> int {
    if k == 0 {
        0
    } else {
        2 + 3 * k
    }
}

spec fn width(k: int) -> nat {
    if k == 0 {
        4
    } else if k == 6 {
        3
    } else {
        2
    }
}

proof fn lemma_powers()
    ensures
        crate::text::power_of_ten(2) == 100,
        crate::text::power_of_ten(3) == 1000,
        crate::text::power_of_ten(4) == 10_000,
{
    reveal_with_fuel(crate::text::power_of_ten, 5);
}

/// The text has the form of an instant, with these fields.
spec fn fits(text: Seq<char>, p: Seq<nat>) -> bool {
    &&& has_iso_form(text)
    &&& p.len() == 7
    &&& forall|k: int| 0 <= k < 7 ==> #[trigger] p[k] < crate::text::power_of_ten(width(k))
    &&& forall|k: int|
        0 <= k < 7 ==> text.subrange(place(k), place(k) + width(k)) == crate::text::zero_padded(
            #[trigger] p[k],
            width(k),
        )
}

/// An instant is written with its fields.
proof fn lemma_fields(ms: int)
    requires
        0 <= ms < END_OF_FOUR_DIGITS,
    ensures
        fits(crate::clock::iso_utc(ms), parts(ms)),
{
    let text = crate::clock::iso_utc(ms);
    let day = crate::clock::day_of(ms);
    let p = parts(ms);
    lemma_powers();
    crate::calendar::law_every_day_has_a_date(day);
    assert(p[0] < 10_000 && p[1] < 100 && p[2] < 100 && p[3] < 100 && p[4] < 100 && p[5] < 100
        && p[6] < 1000);
    crate::text::lemma_padded(p[0], 4);
    crate::text::lemma_padded(p[1], 2);
    crate::text::lemma_padded(p[2], 2);
    crate::text::lemma_padded(p[3], 2);
    crate::text::lemma_padded(p[4], 2);
    crate::text::lemma_padded(p[5], 2);
    crate::text::lemma_padded(p[6], 3);
    assert(text.subrange(0, 4) =~= crate::text::zero_padded(p[0], 4));
    assert(text.subrange(5, 7) =~= crate::text::zero_padded(p[1], 2));
    assert(text.subrange(8, 10) =~= crate::text::zero_padded(p[2], 2));
    assert(text.subrange(11, 13) =~= crate::text::zero_padded(p[3], 2));
    assert(text.subrange(14, 16) =~= crate::text::zero_padded(p[4], 2));
    assert(text.subrange(17, 19) =~= crate::text::zero_padded(p[5], 2));
    assert(text.subrange(20, 23) =~= crate::text::zero_padded(p[6], 3));
}

/// The fields are read back.
proof fn lemma_read(text: Seq<char>, p: Seq<nat>, k: int)
    requires
        fits(text, p),
        0 <= k < 7,
    ensures
        field(text, place(k), place(k) + width(k)) == p[k],
{
    assert(p[k] < crate::text::power_of_ten(width(k)));
    crate::text::lemma_padded(p[k], width(k));
}

/// Hours, minutes, seconds and milliseconds make up the time of day.
proof fn lemma_time_of_day(tod: int)
    requires
        0 <= tod < 86_400_000,
    ensures
        tod / 3_600_000 < 24,
        tod / 3_600_000 * 3_600_000 + tod / 60_000 % 60 * 60_000 + tod / 1000 % 60 * 1000 + tod
            % 1000 == tod,
{
    let minutes = tod / 60_000;
    let seconds = tod / 1000;
    assert(minutes / 60 == tod / 3_600_000);
    assert(seconds / 60 == minutes);
    assert(minutes == 60 * (minutes / 60) + minutes % 60);
    assert(seconds == 60 * minutes + seconds % 60);
}

/// An instant before the year 10000 is read back from its text, which has the form of
/// ISO 8601 and names a day of the calendar and a time of that day.
pub proof fn law_written_instant_reads_back(ms: u64)
    requires
        ms < END_OF_FOUR_DIGITS,
    ensures
        has_iso_form(crate::clock::iso_utc(ms as int)),
        date_read(crate::clock::iso_utc(ms as int)).valid(),
        field(crate::clock::iso_utc(ms as int), 11, 13) < 24,
        field(crate::clock::iso_utc(ms as int), 14, 16) < 60,
        field(crate::clock::iso_utc(ms as int), 17, 19) < 60,
        instant_read(crate::clock::iso_utc(ms as int)) == ms,
{
    lemma_fields(ms as int);
    lemma_instant_read(crate::clock::iso_utc(ms as int), ms as int);
}

proof fn lemma_instant_read(text: Seq<char>, ms: int)
    requires
        0 <= ms < END_OF_FOUR_DIGITS,
        fits(text, parts(ms)),
    ensures
        date_read(text).valid(),
        field(text, 11, 13) < 24,
        field(text, 14, 16) < 60,
        field(text, 17, 19) < 60,
        instant_read(text) == ms,
{
    let day = crate::clock::day_of(ms);
    let p = parts(ms);
    crate::calendar::law_every_day_has_a_date(day);
    lemma_read(text, p, 0);
    lemma_read(text, p, 1);
    lemma_read(text, p, 2);
    lemma_read(text, p, 3);
    lemma_read(text, p, 4);
    lemma_read(text, p, 5);
    lemma_read(text, p, 6);
    assert(date_read(text) == crate::calendar::date_of(day));
    lemma_time_of_day(ms % 86_400_000);
    assert(ms == day * 86_400_000 + ms % 86_400_000);
}

/// Of two times of a day the earlier has a smaller field behind fields that agree.
proof fn lemma_times_differ(s: int, t: int)
    requires
        0 <= s < t < 86_400_000,
    ensures
        s / 3_600_000 <= t / 3_600_000,
        s / 3_600_000 == t / 3_600_000 ==> s / 60_000 % 60 <= t / 60_000 % 60,
        s / 3_600_000 == t / 3_600_000 && s / 60_000 % 60 == t / 60_000 % 60 ==> s / 1000 % 60 <= t
            / 1000 % 60,
        s / 3_600_000 == t / 3_600_000 && s / 60_000 % 60 == t / 60_000 % 60 && s / 1000 % 60 == t
            / 1000 % 60 ==> s % 1000 < t % 1000,
{
    lemma_time_of_day(s);
    lemma_time_of_day(t);
}

/// Of two instants the earlier has a smaller field behind fields that agree.
proof fn lemma_first_difference(a: int, b: int) -> (k: int)
    requires
        0 <= a < b < END_OF_FOUR_DIGITS,
    ensures
        0 <= k < 7,
        parts(a)[k] < parts(b)[k],
        forall|j: int| 0 <= j < k ==> parts(a)[j] == parts(b)[j],
{
    let x = crate::calendar::date_of(crate::clock::day_of(a));
    let y = crate::calendar::date_of(crate::clock::day_of(b));
    crate::calendar::law_every_day_has_a_date(crate::clock::day_of(a));
    crate::calendar::law_every_day_has_a_date(crate::clock::day_of(b));
    crate::calendar::law_dates_are_ordered_by_day(x, y);
    if crate::clock::day_of(a) < crate::clock::day_of(b) {
        if x.year < y.year {
            0
        } else if x.month < y.month {
            1
        } else {
            2
        }
    } else {
        let s = a % 86_400_000;
        let t = b % 86_400_000;
        assert(crate::clock::day_of(a) == crate::clock::day_of(b));
        assert(s < t);
        lemma_times_differ(s, t);
        if s / 3_600_000 < t / 3_600_000 {
            3
        } else if s / 60_000 % 60 < t / 60_000 % 60 {
            4
        } else if s / 1000 % 60 < t / 1000 % 60 {
            5
        } else {
            6
        }
    }
}

/// Instants before the year 10000 sort as text in the order of time.
pub proof fn law_written_instants_sort_by_time(a: u64, b: u64)
    requires
        a < b < END_OF_FOUR_DIGITS,
    ensures
        crate::order::text_before(crate::clock::iso_utc(a as int), crate::clock::iso_utc(b as int)),
{
    lemma_fields(a as int);
    lemma_fields(b as int);
    let k = lemma_first_difference(a as int, b as int);
    lemma_sorted(
        crate::clock::iso_utc(a as int),
        crate::clock::iso_utc(b as int),
        parts(a as int),
        parts(b as int),
        k,
    );
}

/// The first field that differs decides the order of the texts.
proof fn lemma_sorted(x: Seq<char>, y: Seq<char>, p: Seq<nat>, q: Seq<nat>, k: int)
    requires
        fits(x, p),
        fits(y, q),
        0 <= k < 7,
        p[k] < q[k],
        forall|j: int| 0 <= j < k ==> p[j] == q[j],
    ensures
        crate::order::text_before(x, y),
{
    assert(q[k] < crate::text::power_of_ten(width(k)));
    let i = crate::text::lemma_padded_order(p[k], q[k], width(k));
    let at = place(k) + i;
    let f = x.subrange(place(k), place(k) + width(k));
    let g = y.subrange(place(k), place(k) + width(k));
    assert(x[at] == f[i] && y[at] == g[i]);
    assert forall|c: int| 0 <= c < at implies x[c] == y[c] by {
        if c >= place(k) {
            assert(f.take(i)[c - place(k)] == g.take(i)[c - place(k)]);
        } else {
            lemma_same_before(x, y, p, q, k, c);
        }
    }
    crate::order::lemma_before_at(x, y, at);
}

/// Where fields agree, so does the text.
proof fn lemma_same_before(x: Seq<char>, y: Seq<char>, p: Seq<nat>, q: Seq<nat>, k: int, c: int)
    requires
        fits(x, p),
        fits(y, q),
        0 <= k < 7,
        forall|j: int| 0 <= j < k ==> p[j] == q[j],
        0 <= c < place(k),
    ensures
        x[c] == y[c],
{
    let j = if c < 5 {
        0
    } else {
        (c - 2) / 3
    };
    assert(p[j] == q[j]);
    let f = x.subrange(place(j), place(j) + width(j));
    let g = y.subrange(place(j), place(j) + width(j));
    if c < place(j) + width(j) {
        assert(x[c] == f[c - place(j)]);
        assert(y[c] == g[c - place(j)]);
    }
}

} // verus!
