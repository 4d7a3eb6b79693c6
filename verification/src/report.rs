//! The dataset audit as it is printed.
//!
//! Shares, rates and hours are rounded outside and handed in as text; what is shown,
//! and where, is decided here.

use vstd::prelude::*;

use crate::event::{
    B_LEFT, B_MIDDLE, B_RIGHT, B_X1, B_X2, EV_BUTTON, EV_MOVE, EV_SYNC, EV_WHEEL,
};
use crate::ring::CAP;
use crate::stats::Stats;
use crate::text::{
    chars_of, decimal_text, is_blank, push_decimal, push_left_aligned, push_repeated,
    push_right_aligned, push_zero_padded, same_text, string_of,
};

verus! {

// ---- numbers as text ----------------------------------------------------------------------

/// `n` in decimal, with a comma between each three digits.
pub open spec fn commas_spec(n: nat) -> Seq<char>
    decreases n,
{
    if n < 1000 {
        crate::text::decimal(n)
    } else {
        commas_spec(n / 1000).push(',') + crate::text::zero_padded(n % 1000, 3)
    }
}

/// `n` in decimal, with a comma between each three digits.
pub fn commas(n: u64) -> (s: String)
    ensures
        s@ == commas_spec(n as nat),
    decreases n,
{
    if n < 1000 {
        decimal_text(n)
    } else {
        let mut s = commas(n / 1000);
        s.push(',');
        push_zero_padded(&mut s, n % 1000, 3);
        s
    }
}

/// `n / d` rounded to the nearest whole number, and to the even one of two that are
/// as near.
pub open spec fn rounded(n: nat, d: nat) -> nat {
    let q = n / d;
    let r = n % d;
    if 2 * r > d || (2 * r == d && q % 2 == 1) {
        q + 1
    } else {
        q
    }
}

/// The unit in which so many bytes are told, and how many bytes it is.
pub open spec fn byte_unit(b: u64) -> (Seq<char>, nat) {
    if b < 1024 {
        ("B"@, 1)
    } else if b < 1_048_576 {
        ("KB"@, 1024)
    } else if b < 1_073_741_824 {
        ("MB"@, 1_048_576)
    } else {
        ("GB"@, 1_073_741_824)
    }
}

/// What the last of 53 significant bits stands for.
pub open spec fn last_bit(n: nat) -> nat
    decreases n,
{
    if n < 0x20_0000_0000_0000 {
        1
    } else {
        2 * last_bit(n / 2)
    }
}

/// The number rounded to 53 significant bits.
pub open spec fn in_double(n: nat) -> nat {
    rounded(n, last_bit(n)) * last_bit(n)
}

/// So many bytes, in tenths of the largest unit that they fill. Of a size beyond 53
/// significant bits, only those count.
pub open spec fn human_bytes_spec(b: u64) -> Seq<char> {
    let (unit, size) = byte_unit(b);
    let tenths = rounded(10 * in_double(b as nat), size);
    crate::text::decimal(tenths / 10).push('.') + crate::text::decimal(tenths % 10) + " "@ + unit
}

/// `n / d` rounded to the nearest whole number.
fn round_quotient(n: u128, d: u128) -> (r: u128)
    requires
        0 < d <= 0x8000_0000_0000_0000,
        n <= 0x1_0000_0000_0000_0000_0000_0000,
    ensures
        r == rounded(n as nat, d as nat),
        r <= n + 1,
{
    let q: u128 = n / d;
    let r: u128 = n % d;
    proof {
        assert(q <= n) by (nonlinear_arith)
            requires
                d >= 1,
                q == n / d,
        ;
    }
    if 2 * r > d || (2 * r == d && q % 2 == 1) {
        q + 1
    } else {
        q
    }
}

/// The number rounded to 53 significant bits.
fn to_double(b: u64) -> (n: u128)
    ensures
        n == in_double(b as nat),
        n <= 0x2_0000_0000_0000_0000,
{
    let mut step: u64 = 1;
    let mut rest: u64 = b;
    while rest >= 0x20_0000_0000_0000
        invariant
            1 <= step <= 0x1000,
            last_bit(b as nat) == step * last_bit(rest as nat),
            step * rest <= b,
        decreases rest,
    {
        let half: u64 = rest / 2;
        proof {
            assert(step < 0x800) by (nonlinear_arith)
                requires
                    step * rest <= b,
                    rest >= 0x20_0000_0000_0000,
                    b <= 0xFFFF_FFFF_FFFF_FFFF,
            ;
            assert((2 * step) * half <= step * rest) by (nonlinear_arith)
                requires
                    2 * half <= rest,
            ;
            assert(step * (2 * last_bit(half as nat)) == (2 * step) * last_bit(half as nat))
                by (nonlinear_arith);
        }
        step = 2 * step;
        rest = half;
    }
    assert(last_bit(rest as nat) == 1);
    assert(step * 1 == step) by (nonlinear_arith);
    let q: u128 = round_quotient(b as u128, step as u128);
    proof {
        lemma_rounded_back(b as nat, step as nat);
    }
    q * step as u128
}

/// Rounding to a multiple of `d` moves a number by less than `d`.
proof fn lemma_rounded_back(n: nat, d: nat)
    by (nonlinear_arith)
    requires
        d > 0,
    ensures
        rounded(n, d) * d <= n + d,
{
}

/// So many bytes, in tenths of the largest unit that they fill.
pub fn human_bytes(b: u64) -> (s: String)
    ensures
        s@ == human_bytes_spec(b),
{
    let (unit, size): (&'static str, u128) = if b < 1024 {
        ("B", 1)
    } else if b < 1_048_576 {
        ("KB", 1024)
    } else if b < 1_073_741_824 {
        ("MB", 1_048_576)
    } else {
        ("GB", 1_073_741_824)
    };
    let tenths: u128 = round_quotient(10 * to_double(b), size);
    let whole: u128 = tenths / 10;
    proof {
        lemma_whole_fits(b as nat, size as nat);
    }
    let mut s = decimal_text(whole as u64);
    s.push('.');
    push_decimal(&mut s, (tenths % 10) as u64);
    s.append(" ");
    s.append(unit);
    s
}

/// So many units can be counted.
proof fn lemma_whole_fits(b: nat, size: nat)
    requires
        b <= u64::MAX,
        size == 1 && b < 1024 || size == 1024 && b < 1_048_576 || size == 1_048_576 && b
            < 1_073_741_824 || size == 1_073_741_824,
        in_double(b) <= 0x2_0000_0000_0000_0000,
    ensures
        rounded(10 * in_double(b), size) / 10 <= u64::MAX,
{
    if size < 1_073_741_824 {
        assert(last_bit(b) == 1);
        assert(rounded(b, 1) == b);
    }
}

/// Bytes that the character takes when stored.
pub open spec fn stored_len(c: char) -> nat {
    if (c as u32) < 0x80 {
        1
    } else if (c as u32) < 0x800 {
        2
    } else if (c as u32) < 0x1_0000 {
        3
    } else {
        4
    }
}

/// Bytes that the text takes when stored.
pub open spec fn stored_size(s: Seq<char>) -> nat
    decreases s.len(),
{
    if s.len() == 0 {
        0
    } else {
        stored_size(s.drop_last()) + stored_len(s.last())
    }
}

/// The first 19 bytes of the text (date and time of an instant), where they are whole
/// characters; else all of it.
pub open spec fn instant_cut(s: Seq<char>) -> Seq<char> {
    if exists|k: int| 0 <= k <= s.len() && #[trigger] stored_size(s.take(k)) == 19 {
        let k = choose|k: int| 0 <= k <= s.len() && #[trigger] stored_size(s.take(k)) == 19;
        s.take(k)
    } else {
        s
    }
}

proof fn lemma_stored_size_grows(s: Seq<char>, a: int, b: int)
    requires
        0 <= a <= b <= s.len(),
    ensures
        stored_size(s.take(a)) + (b - a) <= stored_size(s.take(b)),
    decreases b - a,
{
    if a < b {
        lemma_stored_size_grows(s, a, b - 1);
        assert(s.take(b).drop_last() =~= s.take(b - 1));
    }
}

/// The first 19 bytes of the text, where they are whole characters; else all of it.
fn cut_instant(s: &str) -> (r: String)
    ensures
        r@ == instant_cut(s@),
{
    let chars = chars_of(s);
    let mut k: usize = 0;
    let mut size: usize = 0;
    assert(chars@.take(0) =~= seq![]);
    while k < chars.len() && size < 19
        invariant
            k <= chars@.len(),
            size == stored_size(chars@.take(k as int)),
            size <= 22,
            k > 0 ==> stored_size(chars@.take(k - 1)) < 19,
        decreases chars@.len() - k,
    {
        let c: u32 = chars[k] as u32;
        let n: usize = if c < 0x80 {
            1
        } else if c < 0x800 {
            2
        } else if c < 0x1_0000 {
            3
        } else {
            4
        };
        proof {
            assert(chars@.take(k + 1).drop_last() =~= chars@.take(k as int));
            assert(chars@.take(k + 1).last() == chars@[k as int]);
        }
        size = size + n;
        k = k + 1;
    }
    if size == 19 {
        proof {
            assert forall|j: int|
                0 <= j <= chars@.len() && #[trigger] stored_size(chars@.take(j)) == 19 implies j
                == k by {
                if j < k {
                    lemma_stored_size_grows(chars@, j, k as int);
                } else if j > k {
                    lemma_stored_size_grows(chars@, k as int, j);
                }
            }
            assert(stored_size(chars@.take(k as int)) == 19);
            assert(chars@.subrange(0, k as int) =~= chars@.take(k as int));
        }
        string_of(&chars.as_slice()[0..k])
    } else {
        proof {
            assert forall|j: int| 0 <= j <= chars@.len() implies #[trigger] stored_size(
                chars@.take(j),
            ) != 19 by {
                if j < k {
                    lemma_before_the_end(chars@, j, k as int, size as nat);
                } else if j > k {
                    lemma_stored_size_grows(chars@, k as int, j);
                }
            }
        }
        s.to_owned()
    }
}

/// Counting stopped at the first prefix of 19 bytes or more, so that no earlier one
/// has 19.
proof fn lemma_before_the_end(s: Seq<char>, j: int, k: int, size: nat)
    requires
        0 <= j < k <= s.len(),
        size == stored_size(s.take(k)),
        size != 19,
        k > 0 ==> stored_size(s.take(k - 1)) < 19,
    ensures
        stored_size(s.take(j)) != 19,
{
    lemma_stored_size_grows(s, j, k - 1);
}

// ---- pieces of lines ------------------------------------------------------------------------

/// A label and a value set to the right of a column.
pub open spec fn row(label: Seq<char>, value: Seq<char>) -> Seq<char> {
    label + crate::text::right_aligned(value, 12)
}

fn make_row(label: &str, value: &str) -> (s: String)
    ensures
        s@ == row(label@, value@),
{
    let mut s = label.to_owned();
    push_right_aligned(&mut s, value, 12);
    s
}

/// A bar of so many marks, as far as it fits.
pub open spec fn bar(n: nat) -> Seq<char> {
    crate::text::repeated(
        '#',
        if n > 40 {
            40
        } else {
            n as int
        },
    )
}

fn push_bar(s: &mut String, n: u64)
    ensures
        final(s)@ == old(s)@ + bar(n as nat),
{
    let len: usize = if n > 40 {
        40
    } else {
        n as usize
    };
    push_repeated(s, '#', len);
}

/// What is rounded outside.
pub struct ReportTexts {
    /// Recording time, with its unit.
    pub hours: String,
    /// Hours asleep or off.
    pub asleep: String,
    /// Shares in percent of moves, anchors, button and wheel events.
    pub kind_shares: Vec<String>,
    /// Median hold of a click, with its unit.
    pub hold: String,
    /// Report rate, with its unit.
    pub rate: String,
    /// Median gap between reports, in milliseconds.
    pub gap: String,
    /// Shares in percent of the distances.
    pub distance_shares: Vec<String>,
    /// The sets as they are shown.
    pub weekdays: String,
    pub machines: String,
    pub devices: String,
}

impl ReportTexts {
    /// There is a share for each line that shows one.
    pub open spec fn wf(&self) -> bool {
        self.kind_shares@.len() == 4 && self.distance_shares@.len() == 7
    }
}

// ---- dataset ----------------------------------------------------------------------------------

/// How much there is.
pub open spec fn dataset_lines(s: Stats, t: ReportTexts) -> Seq<Seq<char>> {
    let head = seq![
        "DATASET"@,
        row("  sessions            "@, crate::text::decimal(s.sessions as nat)) + "   ("@
            + crate::text::decimal(s.clean as nat) + " clean, "@ + crate::text::decimal(
            s.interrupted as nat,
        ) + " interrupted, "@ + crate::text::decimal(s.in_progress as nat) + " in progress)"@,
    ];
    let span = if s.first_session@.len() == 0 {
        seq![]
    } else {
        seq![
            row("  first               "@, instant_cut(s.first_session@)),
            row("  latest              "@, instant_cut(s.last_session@)),
        ]
    };
    head + span + seq![
        row("  on disk             "@, human_bytes_spec(s.bytes)),
        row("  recording time      "@, t.hours@) + "   (excludes "@ + t.asleep@
            + " h asleep/off)"@,
    ]
}

fn make_dataset_lines(s: &Stats, t: &ReportTexts) -> (v: Vec<String>)
    ensures
        crate::text::views(v@) == dataset_lines(*s, *t),
{
    let mut v: Vec<String> = Vec::new();
    v.push("DATASET".to_owned());
    let n = decimal_text(s.sessions as u64);
    let mut l = make_row("  sessions            ", n.as_str());
    l.append("   (");
    push_decimal(&mut l, s.clean as u64);
    l.append(" clean, ");
    push_decimal(&mut l, s.interrupted as u64);
    l.append(" interrupted, ");
    push_decimal(&mut l, s.in_progress as u64);
    l.append(" in progress)");
    v.push(l);
    if !is_blank(s.first_session.as_str()) {
        let first = cut_instant(s.first_session.as_str());
        v.push(make_row("  first               ", first.as_str()));
        let last = cut_instant(s.last_session.as_str());
        v.push(make_row("  latest              ", last.as_str()));
    }
    let size = human_bytes(s.bytes);
    v.push(make_row("  on disk             ", size.as_str()));
    let mut time = make_row("  recording time      ", t.hours.as_str());
    time.append("   (excludes ");
    time.append(t.asleep.as_str());
    time.append(" h asleep/off)");
    v.push(time);
    assert(crate::text::views(v@) =~= dataset_lines(*s, *t));
    v
}

// ---- health -----------------------------------------------------------------------------------

/// Whether any of it was lost. A loss is never hidden.
pub open spec fn health_lines(s: Stats) -> Seq<Seq<char>> {
    seq![
        ""@,
        "HEALTH"@,
        row("  input reports       "@, commas_spec(s.reports_received as nat)),
        row("  events written      "@, commas_spec(s.events_written as nat)),
        row("  events dropped      "@, commas_spec(s.dropped as nat)) + if s.dropped > 0 {
            "   <-- DATA LOSS"@
        } else {
            ""@
        },
        row("  writer errors       "@, commas_spec(s.writer_errors as nat)),
        row("  peak queue depth    "@, commas_spec(s.peak_queue as nat)) + " / "@
            + crate::text::decimal(CAP as nat),
    ]
}

fn make_health_lines(s: &Stats) -> (v: Vec<String>)
    ensures
        crate::text::views(v@) == health_lines(*s),
{
    let mut v: Vec<String> = Vec::new();
    v.push("".to_owned());
    v.push("HEALTH".to_owned());
    let a = commas(s.reports_received);
    v.push(make_row("  input reports       ", a.as_str()));
    let b = commas(s.events_written);
    v.push(make_row("  events written      ", b.as_str()));
    let c = commas(s.dropped);
    let mut l = make_row("  events dropped      ", c.as_str());
    l.append(
        if s.dropped > 0 {
            "   <-- DATA LOSS"
        } else {
            ""
        },
    );
    v.push(l);
    let d = commas(s.writer_errors);
    v.push(make_row("  writer errors       ", d.as_str()));
    let e = commas(s.peak_queue);
    let mut l = make_row("  peak queue depth    ", e.as_str());
    l.append(" / ");
    push_decimal(&mut l, CAP as u64);
    v.push(l);
    assert(crate::text::views(v@) =~= health_lines(*s));
    v
}

// ---- events by kind -----------------------------------------------------------------------------

/// The count for a key; none is 0.
fn count_for(m: &std::collections::HashMap<u8, u64>, k: u8) -> (n: u64)
    ensures
        n == crate::stats::count_of(m@, k),
{
    match m.get(&k) {
        Some(v) => *v,
        None => 0,
    }
}

/// The line of a kind of event.
pub open spec fn kind_line(label: Seq<char>, n: nat, share: Seq<char>) -> Seq<char> {
    "  "@ + crate::text::left_aligned(label, 18) + "  "@ + crate::text::right_aligned(
        commas_spec(n),
        12,
    ) + "  "@ + crate::text::right_aligned(share, 5) + "%"@
}

fn make_kind_line(label: &str, n: u64, share: &str) -> (s: String)
    ensures
        s@ == kind_line(label@, n as nat, share@),
{
    let mut s = "  ".to_owned();
    push_left_aligned(&mut s, label, 18);
    s.append("  ");
    let c = commas(n);
    push_right_aligned(&mut s, c.as_str(), 12);
    s.append("  ");
    push_right_aligned(&mut s, share, 5);
    s.append("%");
    s
}

/// How many events of each kind there are.
pub open spec fn kind_lines(s: Stats, t: ReportTexts) -> Seq<Seq<char>> {
    seq![
        ""@,
        "EVENTS BY KIND"@,
        kind_line(
            "move"@,
            crate::stats::count_of(s.kinds@, EV_MOVE) as nat,
            t.kind_shares@[0]@,
        ),
        kind_line(
            "sync"@,
            crate::stats::count_of(s.kinds@, EV_SYNC) as nat,
            t.kind_shares@[1]@,
        ),
        kind_line(
            "button"@,
            crate::stats::count_of(s.kinds@, EV_BUTTON) as nat,
            t.kind_shares@[2]@,
        ),
        kind_line(
            "wheel"@,
            crate::stats::count_of(s.kinds@, EV_WHEEL) as nat,
            t.kind_shares@[3]@,
        ),
    ]
}

fn make_kind_lines(s: &Stats, t: &ReportTexts) -> (v: Vec<String>)
    requires
        t.wf(),
    ensures
        crate::text::views(v@) == kind_lines(*s, *t),
{
    let mut v: Vec<String> = Vec::new();
    v.push("".to_owned());
    v.push("EVENTS BY KIND".to_owned());
    v.push(make_kind_line("move", count_for(&s.kinds, EV_MOVE), t.kind_shares[0].as_str()));
    v.push(make_kind_line("sync", count_for(&s.kinds, EV_SYNC), t.kind_shares[1].as_str()));
    v.push(make_kind_line("button", count_for(&s.kinds, EV_BUTTON), t.kind_shares[2].as_str()));
    v.push(make_kind_line("wheel", count_for(&s.kinds, EV_WHEEL), t.kind_shares[3].as_str()));
    assert(crate::text::views(v@) =~= kind_lines(*s, *t));
    v
}

// ---- behavioural units --------------------------------------------------------------------------

/// The line of a button, where it was pressed at all.
pub open spec fn press_line(label: Seq<char>, n: nat) -> Seq<Seq<char>> {
    if n > 0 {
        seq![
            "    "@ + crate::text::left_aligned(label, 16) + "  "@ + crate::text::right_aligned(
                commas_spec(n),
                12,
            ) + "  presses"@,
        ]
    } else {
        seq![]
    }
}

fn push_press_line(v: &mut Vec<String>, label: &str, n: u64)
    ensures
        crate::text::views(final(v)@) == crate::text::views(old(v)@) + press_line(label@, n as nat),
{
    if n > 0 {
        let mut s = "    ".to_owned();
        push_left_aligned(&mut s, label, 16);
        s.append("  ");
        let c = commas(n);
        push_right_aligned(&mut s, c.as_str(), 12);
        s.append("  presses");
        v.push(s);
    }
    assert(crate::text::views(v@) =~= crate::text::views(old(v)@) + press_line(label@, n as nat));
}

/// Movements, clicks, drags and scrolls, and the medians where there are any.
pub open spec fn unit_lines(s: Stats, t: ReportTexts) -> Seq<Seq<char>> {
    let hold = if crate::order::median_of(s.holds@) > 0 {
        seq![row("  click hold median   "@, t.hold@)]
    } else {
        seq![]
    };
    let rate = if crate::order::median_of(s.gaps@) > 0 {
        seq![row("  report rate         "@, t.rate@) + "   (median gap "@ + t.gap@ + " ms)"@]
    } else {
        seq![]
    };
    seq![
        ""@,
        "BEHAVIOURAL UNITS"@,
        row("  movement segments   "@, commas_spec(s.movements as nat)),
        row("  clicks              "@, commas_spec(s.clicks as nat)),
    ] + press_line("left"@, crate::stats::count_of(s.button_presses@, B_LEFT) as nat) + press_line(
        "right"@,
        crate::stats::count_of(s.button_presses@, B_RIGHT) as nat,
    ) + press_line("middle"@, crate::stats::count_of(s.button_presses@, B_MIDDLE) as nat)
        + press_line("x1"@, crate::stats::count_of(s.button_presses@, B_X1) as nat) + press_line(
        "x2"@,
        crate::stats::count_of(s.button_presses@, B_X2) as nat,
    ) + seq![
        row("  drags               "@, commas_spec(s.drags as nat)),
        row("  scroll bursts       "@, commas_spec(s.scroll_bursts as nat)),
    ] + hold + rate
}

fn make_unit_lines(s: &Stats, t: &ReportTexts) -> (v: Vec<String>)
    ensures
        crate::text::views(v@) == unit_lines(*s, *t),
{
    let hold_ns: u64 = s.hold_median_ns();
    let gap_ns: u64 = s.gap_median_ns();
    let mut v: Vec<String> = Vec::new();
    v.push("".to_owned());
    v.push("BEHAVIOURAL UNITS".to_owned());
    let a = commas(s.movements);
    v.push(make_row("  movement segments   ", a.as_str()));
    let b = commas(s.clicks);
    v.push(make_row("  clicks              ", b.as_str()));
    let ghost head = crate::text::views(v@);
    assert(head =~= seq![
        ""@,
        "BEHAVIOURAL UNITS"@,
        row("  movement segments   "@, commas_spec(s.movements as nat)),
        row("  clicks              "@, commas_spec(s.clicks as nat)),
    ]);
    push_press_line(&mut v, "left", count_for(&s.button_presses, B_LEFT));
    push_press_line(&mut v, "right", count_for(&s.button_presses, B_RIGHT));
    push_press_line(&mut v, "middle", count_for(&s.button_presses, B_MIDDLE));
    push_press_line(&mut v, "x1", count_for(&s.button_presses, B_X1));
    push_press_line(&mut v, "x2", count_for(&s.button_presses, B_X2));
    let ghost pressed = crate::text::views(v@);
    let c = commas(s.drags);
    v.push(make_row("  drags               ", c.as_str()));
    let d = commas(s.scroll_bursts);
    v.push(make_row("  scroll bursts       ", d.as_str()));
    assert(crate::text::views(v@) =~= pressed + seq![
        row("  drags               "@, commas_spec(s.drags as nat)),
        row("  scroll bursts       "@, commas_spec(s.scroll_bursts as nat)),
    ]);
    let ghost counted = crate::text::views(v@);
    if hold_ns > 0 {
        v.push(make_row("  click hold median   ", t.hold.as_str()));
        assert(crate::text::views(v@) =~= counted + seq![
            row("  click hold median   "@, t.hold@),
        ]);
    }
    let ghost held = crate::text::views(v@);
    assert(hold_ns == 0 ==> held =~= counted + Seq::<Seq<char>>::empty());
    if gap_ns > 0 {
        let mut l = make_row("  report rate         ", t.rate.as_str());
        l.append("   (median gap ");
        l.append(t.gap.as_str());
        l.append(" ms)");
        v.push(l);
        assert(crate::text::views(v@) =~= held + seq![
            row("  report rate         "@, t.rate@) + "   (median gap "@ + t.gap@ + " ms)"@,
        ]);
    }
    assert(gap_ns == 0 ==> crate::text::views(v@) =~= held + Seq::<Seq<char>>::empty());
    v
}

// ---- distances ----------------------------------------------------------------------------------

/// The bins of distances: from, up to, and what they are called. The last has no end.
pub const BINS: [(u64, u64, &'static str); 7] = [
    (0, 25, "0-25"),
    (25, 75, "25-75"),
    (75, 150, "75-150"),
    (150, 300, "150-300"),
    (300, 600, "300-600"),
    (600, 1200, "600-1200"),
    (1200, 0xFFFF_FFFF_FFFF_FFFF, "1200+"),
];

/// A distance, given by its square, lies in the bin. One that goes on to the largest
/// number has no end.
pub open spec fn in_bin(square: u128, lo: u64, hi: u64) -> bool {
    lo as int * lo as int <= square && (hi == u64::MAX || square < hi as int * hi as int)
}

/// How many of the distances, given by their squares, lie in the bin.
pub open spec fn bin_count(distances: Seq<u128>, lo: u64, hi: u64) -> nat
    decreases distances.len(),
{
    if distances.len() == 0 {
        0
    } else {
        bin_count(distances.drop_last(), lo, hi) + if in_bin(distances.last(), lo, hi) {
            1nat
        } else {
            0
        }
    }
}

/// How many of the distances lie in the bin.
pub fn count_bin(distances: &Vec<u128>, lo: u64, hi: u64) -> (n: u64)
    ensures
        n == bin_count(distances@, lo, hi),
        n <= distances@.len(),
{
    proof {
        lemma_square_fits(lo);
        lemma_square_fits(hi);
    }
    let from: u128 = lo as u128 * lo as u128;
    let upto: u128 = hi as u128 * hi as u128;
    let mut n: u64 = 0;
    let mut i: usize = 0;
    while i < distances.len()
        invariant
            i <= distances@.len(),
            from == lo as int * lo as int,
            upto == hi as int * hi as int,
            n == bin_count(distances@.take(i as int), lo, hi),
            n <= i,
        decreases distances@.len() - i,
    {
        proof {
            let next = distances@.take(i + 1);
            assert(next.drop_last() =~= distances@.take(i as int));
            assert(next.last() == distances@[i as int]);
        }
        if from <= distances[i] && (hi == u64::MAX || distances[i] < upto) {
            n = n + 1;
        }
        i = i + 1;
    }
    assert(distances@.take(i as int) =~= distances@);
    n
}

proof fn lemma_square_fits(n: u64)
    by (nonlinear_arith)
    ensures
        0 <= n as int * n as int <= u128::MAX,
{
}

/// The marks for `n` of `total`: one for each two percent.
pub open spec fn share_marks(n: nat, total: nat) -> nat {
    if total == 0 {
        0
    } else {
        50 * n / total
    }
}

/// The line of a bin. One with few movements in it is called thin.
pub open spec fn bin_line(label: Seq<char>, n: nat, total: nat, share: Seq<char>) -> Seq<char> {
    "  "@ + crate::text::left_aligned(label, 10) + " px  "@ + crate::text::right_aligned(
        crate::text::decimal(n),
        8,
    ) + "  "@ + crate::text::right_aligned(share, 5) + "%  "@ + bar(share_marks(n, total)) + if 0
        < n < 100 {
        "  thin"@
    } else {
        ""@
    }
}

fn make_bin_line(label: &str, n: u64, total: usize, share: &str) -> (s: String)
    requires
        n <= total,
    ensures
        s@ == bin_line(label@, n as nat, total as nat, share@),
{
    let mut s = "  ".to_owned();
    push_left_aligned(&mut s, label, 10);
    s.append(" px  ");
    let c = decimal_text(n);
    push_right_aligned(&mut s, c.as_str(), 8);
    s.append("  ");
    push_right_aligned(&mut s, share, 5);
    s.append("%  ");
    let marks: u64 = if total == 0 {
        0
    } else {
        proof {
            lemma_marks(n as int, total as int);
        }
        (50 * (n as u128) / (total as u128)) as u64
    };
    push_bar(&mut s, marks);
    s.append(
        if n > 0 && n < 100 {
            "  thin"
        } else {
            ""
        },
    );
    s
}

proof fn lemma_marks(n: int, total: int)
    by (nonlinear_arith)
    requires
        0 <= n <= total,
        total > 0,
    ensures
        0 <= 50 * n / total <= 50,
{
}

/// The lines of the first `n` bins.
pub open spec fn bin_lines(s: Stats, t: ReportTexts, n: int) -> Seq<Seq<char>>
    decreases n,
{
    if n <= 0 {
        seq![]
    } else {
        let (lo, hi, label) = BINS@[n - 1];
        bin_lines(s, t, n - 1).push(
            bin_line(
                label@,
                bin_count(s.distances@, lo, hi),
                s.distances@.len(),
                t.distance_shares@[n - 1]@,
            ),
        )
    }
}

/// How well distances are covered.
pub open spec fn distance_lines(s: Stats, t: ReportTexts) -> Seq<Seq<char>> {
    seq![""@, "DISTANCE COVERAGE"@] + bin_lines(s, t, 7)
}

fn make_distance_lines(s: &Stats, t: &ReportTexts) -> (v: Vec<String>)
    requires
        t.wf(),
    ensures
        crate::text::views(v@) == distance_lines(*s, *t),
{
    let mut v: Vec<String> = Vec::new();
    v.push("".to_owned());
    v.push("DISTANCE COVERAGE".to_owned());
    let ghost head = crate::text::views(v@);
    assert(head =~= seq![""@, "DISTANCE COVERAGE"@]);
    let mut i: usize = 0;
    assert(head =~= head + bin_lines(*s, *t, 0));
    while i < 7
        invariant
            i <= 7,
            t.wf(),
            crate::text::views(v@) == head + bin_lines(*s, *t, i as int),
        decreases 7 - i,
    {
        let (lo, hi, label): (u64, u64, &'static str) = BINS[i];
        let n: u64 = count_bin(&s.distances, lo, hi);
        let ghost before = crate::text::views(v@);
        let line = make_bin_line(label, n, s.distances.len(), t.distance_shares[i].as_str());
        v.push(line);
        i = i + 1;
        assert(crate::text::views(v@) =~= before.push(line@));
        assert(crate::text::views(v@) =~= head + bin_lines(*s, *t, i as int));
    }
    v
}

// ---- time of day --------------------------------------------------------------------------------

/// The line of a part of the day. One without any session is pointed at.
pub open spec fn part_line(label: Seq<char>, n: nat) -> Seq<char> {
    "  "@ + crate::text::left_aligned(label, 12) + " "@ + crate::text::right_aligned(
        crate::text::decimal(n),
        4,
    ) + "  "@ + bar(n) + if n == 0 {
        "  <-- NO DATA"@
    } else {
        ""@
    }
}

/// How often a text is counted in a list of counts.
fn count_for_text(list: &Vec<(String, u64)>, text: &str) -> (n: u64)
    ensures
        n == crate::stats::text_count(list@, text@),
{
    let mut i: usize = 0;
    assert(list@.skip(0) =~= list@);
    while i < list.len()
        invariant
            i <= list@.len(),
            crate::stats::text_count(list@, text@) == crate::stats::text_count(
                list@.skip(i as int),
                text@,
            ),
        decreases list@.len() - i,
    {
        if same_text(list[i].0.as_str(), text) {
            return list[i].1;
        }
        assert(list@.skip(i as int).skip(1) =~= list@.skip(i + 1));
        i = i + 1;
    }
    0
}

fn make_part_line(s: &Stats, label: &str) -> (l: String)
    ensures
        l@ == part_line(label@, crate::stats::text_count(s.day_parts@, label@) as nat),
{
    let n: u64 = count_for_text(&s.day_parts, label);
    let mut l = "  ".to_owned();
    push_left_aligned(&mut l, label, 12);
    l.append(" ");
    let c = decimal_text(n);
    push_right_aligned(&mut l, c.as_str(), 4);
    l.append("  ");
    push_bar(&mut l, n);
    l.append(
        if n == 0 {
            "  <-- NO DATA"
        } else {
            ""
        },
    );
    l
}

/// How well times of day are covered.
pub open spec fn coverage_lines(s: Stats, t: ReportTexts) -> Seq<Seq<char>> {
    seq![
        ""@,
        "TIME-OF-DAY COVERAGE"@,
        part_line("morning"@, crate::stats::text_count(s.day_parts@, "morning"@) as nat),
        part_line("afternoon"@, crate::stats::text_count(s.day_parts@, "afternoon"@) as nat),
        part_line("evening"@, crate::stats::text_count(s.day_parts@, "evening"@) as nat),
        part_line("night"@, crate::stats::text_count(s.day_parts@, "night"@) as nat),
        part_line("late_night"@, crate::stats::text_count(s.day_parts@, "late_night"@) as nat),
        "  hours of day        "@ + crate::text::right_aligned(
            crate::text::decimal(s.hours@.len()),
            2,
        ) + " / 24"@,
        "  weekdays            "@ + crate::text::right_aligned(
            crate::text::decimal(s.weekdays@.len()),
            2,
        ) + " / 7    "@ + t.weekdays@,
    ]
}

fn make_coverage_lines(s: &Stats, t: &ReportTexts) -> (v: Vec<String>)
    ensures
        crate::text::views(v@) == coverage_lines(*s, *t),
{
    let mut v: Vec<String> = Vec::new();
    v.push("".to_owned());
    v.push("TIME-OF-DAY COVERAGE".to_owned());
    v.push(make_part_line(s, "morning"));
    v.push(make_part_line(s, "afternoon"));
    v.push(make_part_line(s, "evening"));
    v.push(make_part_line(s, "night"));
    v.push(make_part_line(s, "late_night"));
    let mut h = "  hours of day        ".to_owned();
    let n = decimal_text(s.hours.len() as u64);
    push_right_aligned(&mut h, n.as_str(), 2);
    h.append(" / 24");
    v.push(h);
    let mut w = "  weekdays            ".to_owned();
    let m = decimal_text(s.weekdays.len() as u64);
    push_right_aligned(&mut w, m.as_str(), 2);
    w.append(" / 7    ");
    w.append(t.weekdays.as_str());
    v.push(w);
    assert(crate::text::views(v@) =~= coverage_lines(*s, *t));
    v
}

// ---- the whole ----------------------------------------------------------------------------------

/// The whole report, line by line.
pub open spec fn report_lines(s: Stats, t: ReportTexts) -> Seq<Seq<char>> {
    dataset_lines(s, t) + health_lines(s) + kind_lines(s, t) + unit_lines(s, t)
        + distance_lines(s, t) + coverage_lines(s, t) + seq![
        ""@,
        "ENVIRONMENT"@,
        "  machines            "@ + t.machines@,
        "  mice seen           "@ + t.devices@,
    ]
}

fn append_lines(v: &mut Vec<String>, more: Vec<String>)
    ensures
        crate::text::views(final(v)@) == crate::text::views(old(v)@) + crate::text::views(more@),
{
    let mut i: usize = 0;
    while i < more.len()
        invariant
            i <= more@.len(),
            v@ == old(v)@ + more@.take(i as int),
        decreases more@.len() - i,
    {
        v.push(more[i].clone());
        i = i + 1;
        assert(v@ =~= old(v)@ + more@.take(i as int));
    }
    assert(more@.take(i as int) =~= more@);
    assert(crate::text::views(v@) =~= crate::text::views(old(v)@) + crate::text::views(more@));
}

/// The whole report, line by line.
pub fn report(s: &Stats, t: &ReportTexts) -> (v: Vec<String>)
    requires
        t.wf(),
    ensures
        crate::text::views(v@) == report_lines(*s, *t),
{
    let mut v = make_dataset_lines(s, t);
    append_lines(&mut v, make_health_lines(s));
    append_lines(&mut v, make_kind_lines(s, t));
    append_lines(&mut v, make_unit_lines(s, t));
    append_lines(&mut v, make_distance_lines(s, t));
    append_lines(&mut v, make_coverage_lines(s, t));
    let ghost before = crate::text::views(v@);
    v.push("".to_owned());
    v.push("ENVIRONMENT".to_owned());
    let mut m = "  machines            ".to_owned();
    m.append(t.machines.as_str());
    v.push(m);
    let mut d = "  mice seen           ".to_owned();
    d.append(t.devices.as_str());
    v.push(d);
    assert(crate::text::views(v@) =~= before + seq![
        ""@,
        "ENVIRONMENT"@,
        "  machines            "@ + t.machines@,
        "  mice seen           "@ + t.devices@,
    ]);
    v
}

// ---- laws -----------------------------------------------------------------------------

/// How many distances lie in the first `n` bins.
pub open spec fn binned(distances: Seq<u128>, n: int) -> nat
    decreases n,
{
    if n <= 0 {
        0
    } else {
        binned(distances, n - 1) + bin_count(distances, BINS@[n - 1].0, BINS@[n - 1].1)
    }
}

/// Every distance lies in one bin: the counts of the bins add up to the number of
/// distances.
pub proof fn law_bins_cover_every_distance(distances: Seq<u128>)
    ensures
        binned(distances, 7) == distances.len(),
    decreases distances.len(),
{
    reveal_with_fuel(binned, 8);
    if distances.len() > 0 {
        law_bins_cover_every_distance(distances.drop_last());
    }
}

/// Rounding goes to the nearest whole number: what is left is at most half.
pub proof fn law_rounding_goes_to_the_nearest(n: nat, d: nat)
    requires
        d > 0,
    ensures
        2 * (n - d * rounded(n, d)) <= d,
        2 * (d * rounded(n, d) - n) <= d,
        n % d == 0 ==> rounded(n, d) == n / d,
{
    vstd::arithmetic::div_mod::lemma_fundamental_div_mod(n as int, d as int);
    let q = n / d;
    assert(d * (q + 1) == d * q + d) by (nonlinear_arith);
}

/// The unit is the largest that the size fills: it has at least one of it, and less than
/// 1024, unless there is no larger one.
pub proof fn law_sizes_are_told_in_the_largest_unit(b: u64)
    ensures
        ({
            let (unit, size) = byte_unit(b);
            &&& size == 1 || size == 1024 || size == 1024 * 1024 || size == 1024 * 1024 * 1024
            &&& size == 1 <==> unit == "B"@
            &&& size == 1024 <==> unit == "KB"@
            &&& size == 1024 * 1024 <==> unit == "MB"@
            &&& size == 1024 * 1024 * 1024 <==> unit == "GB"@
            &&& b > 0 ==> size <= b
            &&& size < 1024 * 1024 * 1024 ==> b < 1024 * size
        }),
{
    reveal_strlit("B");
    reveal_strlit("KB");
    reveal_strlit("MB");
    reveal_strlit("GB");
    assert("KB"@[0] != "MB"@[0] && "KB"@[0] != "GB"@[0] && "MB"@[0] != "GB"@[0]);
    assert("B"@.len() != "KB"@.len() && "B"@.len() != "MB"@.len() && "B"@.len() != "GB"@.len());
}

/// The characters that are no commas.
pub open spec fn without_commas(text: Seq<char>) -> Seq<char>
    decreases text.len(),
{
    if text.len() == 0 {
        seq![]
    } else if text.last() == ',' {
        without_commas(text.drop_last())
    } else {
        without_commas(text.drop_last()).push(text.last())
    }
}

proof fn lemma_without_commas_add(a: Seq<char>, b: Seq<char>)
    ensures
        without_commas(a + b) == without_commas(a) + without_commas(b),
    decreases b.len(),
{
    if b.len() == 0 {
        assert(a + b =~= a);
        assert(without_commas(a) + without_commas(b) =~= without_commas(a));
    } else {
        assert((a + b).drop_last() =~= a + b.drop_last());
        lemma_without_commas_add(a, b.drop_last());
        assert(without_commas(a + b) =~= without_commas(a) + without_commas(b));
    }
}

proof fn lemma_digits_have_no_commas(text: Seq<char>)
    requires
        crate::text::all_digits(text),
    ensures
        without_commas(text) == text,
    decreases text.len(),
{
    if text.len() > 0 {
        assert('0' <= text[text.len() - 1] <= '9');
        assert(crate::text::all_digits(text.drop_last())) by {
            assert forall|i: int| 0 <= i < text.drop_last().len() implies '0'
                <= #[trigger] text.drop_last()[i] <= '9' by {
                assert('0' <= text[i] <= '9');
            }
        }
        lemma_digits_have_no_commas(text.drop_last());
        assert(without_commas(text) =~= text);
    } else {
        assert(without_commas(text) =~= text);
    }
}

proof fn lemma_decimal_digits(n: nat)
    ensures
        crate::text::all_digits(crate::text::decimal(n)),
    decreases n,
{
    if n >= 10 {
        lemma_decimal_digits(n / 10);
    }
}

proof fn lemma_value_of_joined(a: Seq<char>, b: Seq<char>)
    requires
        crate::text::all_digits(b),
    ensures
        crate::text::digits_value(a + b) == crate::text::digits_value(a)
            * crate::text::power_of_ten(b.len()) + crate::text::digits_value(b),
    decreases b.len(),
{
    if b.len() == 0 {
        let v = crate::text::digits_value(a);
        assert(a + b =~= a);
        assert(v * 1 == v);
    } else {
        let c = b.drop_last();
        assert('0' <= b[b.len() - 1] <= '9');
        assert(crate::text::all_digits(c)) by {
            assert forall|i: int| 0 <= i < c.len() implies '0' <= #[trigger] c[i] <= '9' by {
                assert('0' <= b[i] <= '9');
            }
        }
        lemma_value_of_joined(a, c);
        assert((a + b).drop_last() =~= a + c);
        let v = crate::text::digits_value(a);
        let p = crate::text::power_of_ten(c.len());
        assert(10 * (v * p) == v * (10 * p)) by (nonlinear_arith);
        assert((a + b).last() == b.last());
        assert(crate::text::power_of_ten(b.len()) == 10 * p);
    }
}

/// A number written with commas reads back as itself without them.
pub proof fn law_commas_do_not_change_a_number(n: nat)
    ensures
        crate::text::digits_value(without_commas(commas_spec(n))) == n,
    decreases n,
{
    lemma_decimal_digits(n);
    if n < 1000 {
        lemma_digits_have_no_commas(crate::text::decimal(n));
        crate::text::lemma_decimal_value(n);
    } else {
        let head = commas_spec(n / 1000);
        let tail = crate::text::zero_padded(n % 1000, 3);
        law_commas_do_not_change_a_number(n / 1000);
        assert(crate::text::power_of_ten(3) == 1000) by {
            reveal_with_fuel(crate::text::power_of_ten, 4);
        }
        crate::text::lemma_padded(n % 1000, 3);
        lemma_digits_have_no_commas(tail);
        assert(head.push(',').drop_last() =~= head);
        lemma_without_commas_add(head.push(','), tail);
        lemma_value_of_joined(without_commas(head), tail);
    }
}

/// A distance counts for a bin just where it is not below its start and, if the bin ends,
/// below its end; each one counts once.
pub proof fn law_a_distance_counts_for_its_bin(distances: Seq<u128>, d: nat, lo: u64, hi: u64)
    requires
        d * d <= u128::MAX,
        lo < hi,
    ensures
        ({
            let square = (d * d) as u128;
            let more = bin_count(distances.push(square), lo, hi) - bin_count(distances, lo, hi);
            &&& lo <= d && (d < hi || hi == 0xFFFF_FFFF_FFFF_FFFF) ==> more == 1
            &&& d < lo || (d >= hi && hi != 0xFFFF_FFFF_FFFF_FFFF) ==> more == 0
        }),
{
    let square = (d * d) as u128;
    assert(distances.push(square).drop_last() =~= distances);
    let (l, h, k) = (lo as int, hi as int, d as int);
    assert(l <= k ==> l * l <= k * k) by (nonlinear_arith)
        requires
            0 <= l,
            0 <= k,
    ;
    assert(k < l ==> k * k < l * l) by (nonlinear_arith)
        requires
            0 <= l,
            0 <= k,
    ;
    assert(k < h ==> k * k < h * h) by (nonlinear_arith)
        requires
            0 <= h,
            0 <= k,
    ;
    assert(h <= k ==> h * h <= k * k) by (nonlinear_arith)
        requires
            0 <= h,
            0 <= k,
    ;
}

/// The bins follow one another without a gap, from nothing to no end.
pub proof fn law_bins_follow_one_another(i: int)
    requires
        0 <= i < 6,
    ensures
        BINS@[0].0 == 0,
        BINS@[i].0 < BINS@[i].1,
        BINS@[i].1 == BINS@[i + 1].0,
        BINS@[6].1 == 0xFFFF_FFFF_FFFF_FFFF,
{
}

/// The bar of a share is as long as the share: nothing of nothing, 50 marks for all, and
/// never shorter for more. On the line it is cut at 40.
pub proof fn law_bars_are_as_long_as_the_share(a: nat, b: nat, total: nat)
    requires
        a <= b <= total,
        total > 0,
    ensures
        share_marks(a, total) <= share_marks(b, total),
        share_marks(0, total) == 0,
        share_marks(total, total) == 50,
        share_marks(a, total) * total <= 50 * a,
        50 * a < (share_marks(a, total) + 1) * total,
        bar(share_marks(a, total)).len() == if share_marks(a, total) <= 40 {
            share_marks(a, total)
        } else {
            40
        },
{
    vstd::arithmetic::div_mod::lemma_div_is_ordered((50 * a) as int, (50 * b) as int, total as int);
    vstd::arithmetic::div_mod::lemma_fundamental_div_mod((50 * a) as int, total as int);
    vstd::arithmetic::div_mod::lemma_div_multiples_vanish(50, total as int);
    vstd::arithmetic::div_mod::lemma_div_basics(total as int);
    let q = 50 * a / total;
    assert(q * total == total * q && (q + 1) * total == total * q + total) by (nonlinear_arith);
    assert(50 * total == total * 50) by (nonlinear_arith);
}

/// The text ends so.
pub open spec fn closes_with(text: Seq<char>, end: Seq<char>) -> bool {
    end.len() <= text.len() && text.skip(text.len() - end.len()) == end
}

proof fn lemma_closes(a: Seq<char>, end: Seq<char>)
    ensures
        closes_with(a + end, end),
{
    assert((a + end).skip((a + end).len() - end.len()) =~= end);
}

/// A part of the day without data is called out, and one with data is not.
pub proof fn law_missing_parts_of_the_day_are_called_out(label: Seq<char>, n: nat)
    ensures
        n == 0 ==> closes_with(part_line(label, n), "  <-- NO DATA"@),
        n > 0 ==> !closes_with(part_line(label, n), "  <-- NO DATA"@),
{
    reveal_strlit("  <-- NO DATA");
    reveal_strlit("");
    let front = "  "@ + crate::text::left_aligned(label, 12) + " "@ + crate::text::right_aligned(
        crate::text::decimal(n),
        4,
    ) + "  "@ + bar(n);
    if n == 0 {
        lemma_closes(front, "  <-- NO DATA"@);
    } else {
        assert(part_line(label, n) =~= front);
        let line = part_line(label, n);
        assert(bar(n).len() > 0);
        assert(line.last() == '#');
        if closes_with(line, "  <-- NO DATA"@) {
            let e = "  <-- NO DATA"@;
            assert(line.skip(line.len() - e.len()).last() == line.last());
        }
    }
}

/// A loss of data is called out just where there is one.
pub proof fn law_a_loss_of_data_is_called_out(s: Stats)
    ensures
        s.dropped > 0 <==> closes_with(health_lines(s)[4], "   <-- DATA LOSS"@),
        health_lines(s)[2] == row("  input reports       "@, commas_spec(s.reports_received as nat)),
        health_lines(s)[3] == row("  events written      "@, commas_spec(s.events_written as nat)),
        health_lines(s)[5] == row("  writer errors       "@, commas_spec(s.writer_errors as nat)),
{
    reveal_strlit("   <-- DATA LOSS");
    reveal_strlit("");
    let front = row("  events dropped      "@, commas_spec(s.dropped as nat));
    let line = health_lines(s)[4];
    if s.dropped > 0 {
        lemma_closes(front, "   <-- DATA LOSS"@);
    } else {
        assert(line =~= front);
        assert(commas_spec(0) == crate::text::decimal(0));
        assert(crate::text::decimal(0) =~= seq!['0']);
        assert(line.last() == '0');
        if closes_with(line, "   <-- DATA LOSS"@) {
            let e = "   <-- DATA LOSS"@;
            assert(line.skip(line.len() - e.len()).last() == line.last());
        }
    }
}

/// Each kind of event is told with its own count, and each button with its own presses.
pub proof fn law_counts_stand_behind_their_names(s: Stats, t: ReportTexts)
    ensures
        ({
            let k = kind_lines(s, t);
            &&& k[2] == kind_line(
                "move"@,
                crate::stats::count_of(s.kinds@, 1) as nat,
                t.kind_shares@[0]@,
            )
            &&& k[3] == kind_line(
                "sync"@,
                crate::stats::count_of(s.kinds@, 4) as nat,
                t.kind_shares@[1]@,
            )
            &&& k[4] == kind_line(
                "button"@,
                crate::stats::count_of(s.kinds@, 2) as nat,
                t.kind_shares@[2]@,
            )
            &&& k[5] == kind_line(
                "wheel"@,
                crate::stats::count_of(s.kinds@, 3) as nat,
                t.kind_shares@[3]@,
            )
            &&& k.len() == 6
        }),
        ({
            let u = unit_lines(s, t);
            &&& u[2] == row("  movement segments   "@, commas_spec(s.movements as nat))
            &&& u[3] == row("  clicks              "@, commas_spec(s.clicks as nat))
            &&& u.contains(row("  drags               "@, commas_spec(s.drags as nat)))
            &&& u.contains(row("  scroll bursts       "@, commas_spec(s.scroll_bursts as nat)))
        }),
{
    let a = press_line("left"@, crate::stats::count_of(s.button_presses@, B_LEFT) as nat);
    let b = press_line("right"@, crate::stats::count_of(s.button_presses@, B_RIGHT) as nat);
    let c = press_line("middle"@, crate::stats::count_of(s.button_presses@, B_MIDDLE) as nat);
    let d = press_line("x1"@, crate::stats::count_of(s.button_presses@, B_X1) as nat);
    let e = press_line("x2"@, crate::stats::count_of(s.button_presses@, B_X2) as nat);
    let at = 4 + a.len() + b.len() + c.len() + d.len() + e.len();
    let u = unit_lines(s, t);
    assert(u[at as int] == row("  drags               "@, commas_spec(s.drags as nat)));
    assert(u[at as int + 1] == row("  scroll bursts       "@, commas_spec(s.scroll_bursts as nat)));
}

/// A bin with movements in it, but fewer than a hundred, is called thin.
pub proof fn law_thin_bins_are_called_out(label: Seq<char>, n: nat, total: nat, share: Seq<char>)
    ensures
        0 < n < 100 <==> closes_with(bin_line(label, n, total, share), "  thin"@),
{
    reveal_strlit("  thin");
    reveal_strlit("");
    reveal_strlit("%  ");
    let front = "  "@ + crate::text::left_aligned(label, 10) + " px  "@
        + crate::text::right_aligned(crate::text::decimal(n), 8) + "  "@
        + crate::text::right_aligned(share, 5) + "%  "@ + bar(share_marks(n, total));
    let line = bin_line(label, n, total, share);
    if 0 < n < 100 {
        lemma_closes(front, "  thin"@);
    } else {
        assert(line =~= front);
        assert(line.last() == '#' || line.last() == ' ');
        if closes_with(line, "  thin"@) {
            let e = "  thin"@;
            assert(line.skip(line.len() - e.len()).last() == line.last());
        }
    }
}

/// A row starts with its label and ends with its value.
pub proof fn law_a_row_holds_its_label_and_its_value(label: Seq<char>, value: Seq<char>)
    ensures
        row(label, value).take(label.len() as int) == label,
        closes_with(row(label, value), value),
        value.len() <= 12 ==> row(label, value).len() == label.len() + 12,
{
    let r = row(label, value);
    assert(r.take(label.len() as int) =~= label);
    assert(r.skip(r.len() - value.len()) =~= value);
}

/// An instant is cut to its date and time: the first nineteen characters, where all are
/// plain ones, and all of it where there are fewer.
pub proof fn law_instants_are_cut_behind_the_seconds(s: Seq<char>)
    requires
        forall|i: int| 0 <= i < s.len() ==> (#[trigger] s[i] as u32) < 0x80,
    ensures
        s.len() >= 19 ==> instant_cut(s) == s.take(19),
        s.len() < 19 ==> instant_cut(s) == s,
{
    assert forall|k: int| 0 <= k <= s.len() implies #[trigger] stored_size(s.take(k)) == k by {
        lemma_plain_size(s.take(k));
    }
    if s.len() >= 19 {
        assert(stored_size(s.take(19)) == 19);
    }
}

proof fn lemma_plain_size(s: Seq<char>)
    requires
        forall|i: int| 0 <= i < s.len() ==> (#[trigger] s[i] as u32) < 0x80,
    ensures
        stored_size(s) == s.len(),
    decreases s.len(),
{
    if s.len() > 0 {
        let t = s.drop_last();
        assert forall|i: int| 0 <= i < t.len() implies (#[trigger] t[i] as u32) < 0x80 by {
            assert(t[i] == s[i]);
        }
        lemma_plain_size(t);
        assert((s[s.len() - 1] as u32) < 0x80);
    }
}

/// Each part of the day is told with its own sessions, and so are the hours and days.
pub proof fn law_coverage_stands_behind_its_names(s: Stats, t: ReportTexts)
    ensures
        ({
            let c = coverage_lines(s, t);
            &&& c.len() == 9
            &&& c[2] == part_line(
                "morning"@,
                crate::stats::text_count(s.day_parts@, "morning"@) as nat,
            )
            &&& c[3] == part_line(
                "afternoon"@,
                crate::stats::text_count(s.day_parts@, "afternoon"@) as nat,
            )
            &&& c[4] == part_line(
                "evening"@,
                crate::stats::text_count(s.day_parts@, "evening"@) as nat,
            )
            &&& c[5] == part_line(
                "night"@,
                crate::stats::text_count(s.day_parts@, "night"@) as nat,
            )
            &&& c[6] == part_line(
                "late_night"@,
                crate::stats::text_count(s.day_parts@, "late_night"@) as nat,
            )
        }),
{
}

/// A button that was pressed is told with its own presses.
pub proof fn law_presses_stand_behind_their_buttons(s: Stats, t: ReportTexts)
    ensures
        ({
            let u = unit_lines(s, t);
            let n = |b: u8| crate::stats::count_of(s.button_presses@, b) as nat;
            &&& n(0) > 0 ==> u.contains(press_line("left"@, n(0))[0])
            &&& n(1) > 0 ==> u.contains(press_line("right"@, n(1))[0])
            &&& n(2) > 0 ==> u.contains(press_line("middle"@, n(2))[0])
            &&& n(3) > 0 ==> u.contains(press_line("x1"@, n(3))[0])
            &&& n(4) > 0 ==> u.contains(press_line("x2"@, n(4))[0])
            &&& press_line("left"@, 0).len() == 0
        }),
{
    let u = unit_lines(s, t);
    let n = |b: u8| crate::stats::count_of(s.button_presses@, b) as nat;
    let a = press_line("left"@, n(0));
    let b = press_line("right"@, n(1));
    let c = press_line("middle"@, n(2));
    let d = press_line("x1"@, n(3));
    let e = press_line("x2"@, n(4));
    if n(0) > 0 {
        assert(u[4] == a[0]);
    }
    if n(1) > 0 {
        assert(u[4 + a.len() as int] == b[0]);
    }
    if n(2) > 0 {
        assert(u[4 + a.len() as int + b.len() as int] == c[0]);
    }
    if n(3) > 0 {
        assert(u[4 + a.len() as int + b.len() as int + c.len() as int] == d[0]);
    }
    if n(4) > 0 {
        assert(u[4 + a.len() as int + b.len() as int + c.len() as int + d.len() as int] == e[0]);
    }
}

/// The dataset is told with its own sessions, size and time, and its span where it has one.
pub proof fn law_the_dataset_is_told_with_its_numbers(s: Stats, t: ReportTexts)
    ensures
        ({
            let d = dataset_lines(s, t);
            let n = d.len() as int;
            &&& d[1] == row("  sessions            "@, crate::text::decimal(s.sessions as nat))
                + "   ("@ + crate::text::decimal(s.clean as nat) + " clean, "@
                + crate::text::decimal(s.interrupted as nat) + " interrupted, "@
                + crate::text::decimal(s.in_progress as nat) + " in progress)"@
            &&& d[n - 2] == row("  on disk             "@, human_bytes_spec(s.bytes))
            &&& d[n - 1] == row("  recording time      "@, t.hours@) + "   (excludes "@ + t.asleep@
                + " h asleep/off)"@
            &&& n == if s.first_session@.len() == 0 {
                4int
            } else {
                6
            }
            &&& s.first_session@.len() > 0 ==> d[2] == row(
                "  first               "@,
                instant_cut(s.first_session@),
            ) && d[3] == row("  latest              "@, instant_cut(s.last_session@))
        }),
{
}

/// Each bin has one line, in order, with its own count out of all distances.
pub proof fn law_each_bin_has_its_line(s: Stats, t: ReportTexts, i: int)
    requires
        0 <= i < 7,
    ensures
        distance_lines(s, t).len() == 9,
        distance_lines(s, t)[i + 2] == bin_line(
            BINS@[i].2@,
            bin_count(s.distances@, BINS@[i].0, BINS@[i].1),
            s.distances@.len(),
            t.distance_shares@[i]@,
        ),
{
    reveal_with_fuel(bin_lines, 8);
}

/// The report leaves nothing out: every line of every section stands in it, and the
/// machines and the mice close it.
pub proof fn law_every_section_is_in_the_report(s: Stats, t: ReportTexts, line: Seq<char>)
    requires
        dataset_lines(s, t).contains(line) || health_lines(s).contains(line) || kind_lines(
            s,
            t,
        ).contains(line) || unit_lines(s, t).contains(line) || distance_lines(s, t).contains(line)
            || coverage_lines(s, t).contains(line),
    ensures
        report_lines(s, t).contains(line),
        report_lines(s, t).last() == "  mice seen           "@ + t.devices@,
        report_lines(s, t).drop_last().last() == "  machines            "@ + t.machines@,
{
    let r = report_lines(s, t);
    let (a, b, c, d, e, f) = (
        dataset_lines(s, t),
        health_lines(s),
        kind_lines(s, t),
        unit_lines(s, t),
        distance_lines(s, t),
        coverage_lines(s, t),
    );
    if a.contains(line) {
        let i = choose|i: int| 0 <= i < a.len() && a[i] == line;
        assert(r[i] == line);
    } else if b.contains(line) {
        let i = choose|i: int| 0 <= i < b.len() && b[i] == line;
        assert(r[a.len() + i] == line);
    } else if c.contains(line) {
        let i = choose|i: int| 0 <= i < c.len() && c[i] == line;
        assert(r[a.len() + b.len() + i] == line);
    } else if d.contains(line) {
        let i = choose|i: int| 0 <= i < d.len() && d[i] == line;
        assert(r[a.len() + b.len() + c.len() + i] == line);
    } else if e.contains(line) {
        let i = choose|i: int| 0 <= i < e.len() && e[i] == line;
        assert(r[a.len() + b.len() + c.len() + d.len() + i] == line);
    } else {
        let i = choose|i: int| 0 <= i < f.len() && f[i] == line;
        assert(r[a.len() + b.len() + c.len() + d.len() + e.len() + i] == line);
    }
}

} // verus!
