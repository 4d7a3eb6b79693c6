//! Snapshot of the pointer-ballistics configuration.
//!
//! Raw deltas (what the sensor reported) and cursor positions (where the pointer
//! ended up) are related by a transform that Windows applies: a sensitivity
//! divisor, and an acceleration curve when "Enhance pointer precision" is on. With
//! the curve stored beside the raw counts the transform can be inverted offline,
//! and the motor signal stays portable. Every field here is read back from
//! Windows, not inferred.

use vstd::prelude::*;

use crate::le::{read16, read32};
use crate::utf16::decode_until_zero;

verus! {

/// What is read from Windows for a snapshot. A registry value is its type and its
/// bytes, where it could be read.
pub struct BallisticsReading {
    pub pointer_speed: i32,
    pub mouse: [i32; 3],
    pub x_curve: Option<(u32, Vec<u8>)>,
    pub y_curve: Option<(u32, Vec<u8>)>,
    pub sensitivity: Option<(u32, Vec<u8>)>,
    pub speed: Option<(u32, Vec<u8>)>,
    pub threshold1: Option<(u32, Vec<u8>)>,
    pub threshold2: Option<(u32, Vec<u8>)>,
}

#[derive(Debug)]
pub struct Ballistics {
    /// Slider position, 1 to 20; 10 is the 1:1 default.
    pub pointer_speed: i32,
    pub mouse_threshold1: i32,
    pub mouse_threshold2: i32,
    /// Non-zero when "Enhance pointer precision" is enabled. When it is 0 the
    /// transform is the plain sensitivity divisor and the curves are inert.
    pub enhance_pointer_precision: i32,
    /// The curves as they stand in the registry: 5 points of 8 bytes.
    pub smooth_mouse_x_curve: Vec<u8>,
    pub smooth_mouse_y_curve: Vec<u8>,
    /// The points of the curves, each in units of 1/65536.
    pub curve_x: Vec<u64>,
    pub curve_y: Vec<u64>,
    /// String values that Windows keeps in parallel. Recorded verbatim, because
    /// they occasionally disagree with the values above.
    pub reg_sensitivity: Option<String>,
    pub reg_speed: Option<String>,
    pub reg_threshold1: Option<String>,
    pub reg_threshold2: Option<String>,
}

/// The points of a curve: for each 8 bytes, a fraction in units of 1/65536 and a
/// whole part. Bytes at the end that make no whole point are ignored.
pub open spec fn curve_points(raw: Seq<u8>) -> Seq<u64> {
    Seq::new(
        raw.len() / 8,
        |i: int|
            (crate::le::value32(raw, 8 * i + 4) * 65_536 + crate::le::value32(raw, 8 * i)) as u64,
    )
}

/// The bytes of a value, and none where it could not be read.
pub open spec fn binary_of(value: Option<(u32, Vec<u8>)>) -> Seq<u8> {
    match value {
        Some((_, b)) => b@,
        None => seq![],
    }
}

/// The 16-bit units that bytes make, little-endian.
pub open spec fn units_of_bytes(b: Seq<u8>) -> Seq<u16> {
    Seq::new(b.len() / 2, |i: int| crate::le::value16(b, 2 * i))
}

/// The text of a registry value.
pub open spec fn text_of_bytes(b: Seq<u8>) -> Seq<char> {
    crate::utf16::decoded(crate::utf16::until_zero(units_of_bytes(b)))
}

/// `text` is what the value says, where it could be read.
pub open spec fn string_of_value(text: Option<String>, value: Option<(u32, Vec<u8>)>) -> bool {
    match (text, value) {
        (Some(t), Some((_, b))) => t@ == text_of_bytes(b@),
        (None, None) => true,
        _ => false,
    }
}

/// `b` is the snapshot of these readings.
pub open spec fn is_snapshot(b: Ballistics, r: BallisticsReading) -> bool {
    &&& b.pointer_speed == r.pointer_speed
    &&& b.mouse_threshold1 == r.mouse@[0]
    &&& b.mouse_threshold2 == r.mouse@[1]
    &&& b.enhance_pointer_precision == r.mouse@[2]
    &&& b.smooth_mouse_x_curve@ == binary_of(r.x_curve)
    &&& b.smooth_mouse_y_curve@ == binary_of(r.y_curve)
    &&& b.curve_x@ == curve_points(binary_of(r.x_curve))
    &&& b.curve_y@ == curve_points(binary_of(r.y_curve))
    &&& string_of_value(b.reg_sensitivity, r.sensitivity)
    &&& string_of_value(b.reg_speed, r.speed)
    &&& string_of_value(b.reg_threshold1, r.threshold1)
    &&& string_of_value(b.reg_threshold2, r.threshold2)
}

impl Ballistics {
    /// The snapshot of these readings.
    pub fn snapshot(r: BallisticsReading) -> (b: Self)
        ensures
            is_snapshot(b, r),
    {
        let smooth_mouse_x_curve = read_binary(r.x_curve);
        let smooth_mouse_y_curve = read_binary(r.y_curve);
        let curve_x = decode_curve(smooth_mouse_x_curve.as_slice());
        let curve_y = decode_curve(smooth_mouse_y_curve.as_slice());
        Ballistics {
            pointer_speed: r.pointer_speed,
            mouse_threshold1: r.mouse[0],
            mouse_threshold2: r.mouse[1],
            enhance_pointer_precision: r.mouse[2],
            smooth_mouse_x_curve,
            smooth_mouse_y_curve,
            curve_x,
            curve_y,
            reg_sensitivity: read_string(&r.sensitivity),
            reg_speed: read_string(&r.speed),
            reg_threshold1: read_string(&r.threshold1),
            reg_threshold2: read_string(&r.threshold2),
        }
    }

    /// True when the transform from raw counts to cursor is a plain scalar, which
    /// makes offline inversion exact rather than approximate.
    pub fn is_linear(&self) -> (r: bool)
        ensures
            r == (self.enhance_pointer_precision == 0),
    {
        self.enhance_pointer_precision == 0
    }
}

impl Ballistics {
    /// Nothing read.
    pub open spec fn is_blank(&self) -> bool {
        &&& self.pointer_speed == 0
        &&& self.mouse_threshold1 == 0
        &&& self.mouse_threshold2 == 0
        &&& self.enhance_pointer_precision == 0
        &&& self.smooth_mouse_x_curve@.len() == 0
        &&& self.smooth_mouse_y_curve@.len() == 0
        &&& self.curve_x@.len() == 0
        &&& self.curve_y@.len() == 0
        &&& self.reg_sensitivity is None
        &&& self.reg_speed is None
        &&& self.reg_threshold1 is None
        &&& self.reg_threshold2 is None
    }
}

impl Default for Ballistics {
    fn default() -> (b: Self)
        ensures
            b.is_blank(),
    {
        Ballistics {
            pointer_speed: 0,
            mouse_threshold1: 0,
            mouse_threshold2: 0,
            enhance_pointer_precision: 0,
            smooth_mouse_x_curve: Vec::new(),
            smooth_mouse_y_curve: Vec::new(),
            curve_x: Vec::new(),
            curve_y: Vec::new(),
            reg_sensitivity: None,
            reg_speed: None,
            reg_threshold1: None,
            reg_threshold2: None,
        }
    }
}

/// The points of a curve.
///
/// 8 bytes each: two little-endian numbers, the first the fraction and the second
/// the whole part.
pub fn decode_curve(raw: &[u8]) -> (out: Vec<u64>)
    ensures
        out@ == curve_points(raw@),
{
    let mut out: Vec<u64> = Vec::new();
    let mut at: usize = 0;
    let len: usize = raw.len();
    let ghost mut n: int = 0;
    while len - at >= 8
        invariant
            0 <= n <= raw@.len() / 8,
            at == 8 * n,
            at <= len == raw@.len(),
            out@ == curve_points(raw@).take(n),
        decreases len - at,
    {
        let frac: u32 = read32(raw, at);
        let whole: u32 = read32(raw, at + 4);
        out.push(whole as u64 * 65_536 + frac as u64);
        at = at + 8;
        proof {
            n = n + 1;
            assert(out@ =~= curve_points(raw@).take(n));
        }
    }
    assert(curve_points(raw@).take(n) =~= curve_points(raw@));
    out
}

/// The bytes of a value, and none where it could not be read.
fn read_binary(value: Option<(u32, Vec<u8>)>) -> (b: Vec<u8>)
    ensures
        b@ == binary_of(value),
{
    match value {
        Some((_, b)) => b,
        None => Vec::new(),
    }
}

/// The 16-bit units that bytes make, little-endian.
pub fn units_from_bytes(b: &[u8]) -> (units: Vec<u16>)
    ensures
        units@ == units_of_bytes(b@),
{
    let mut units: Vec<u16> = Vec::new();
    let mut at: usize = 0;
    let len: usize = b.len();
    let ghost mut n: int = 0;
    while len - at >= 2
        invariant
            0 <= n <= b@.len() / 2,
            at == 2 * n,
            at <= len == b@.len(),
            units@ == units_of_bytes(b@).take(n),
        decreases len - at,
    {
        units.push(read16(b, at));
        at = at + 2;
        proof {
            n = n + 1;
            assert(units@ =~= units_of_bytes(b@).take(n));
        }
    }
    assert(units_of_bytes(b@).take(n) =~= units_of_bytes(b@));
    units
}

/// The text of a registry value: 16-bit units up to the first zero.
pub fn text_from_bytes(b: &[u8]) -> (s: String)
    ensures
        s@ == text_of_bytes(b@),
{
    let units = units_from_bytes(b);
    decode_until_zero(units.as_slice())
}

/// What the value says, where it could be read.
fn read_string(value: &Option<(u32, Vec<u8>)>) -> (s: Option<String>)
    ensures
        string_of_value(s, *value),
{
    match value {
        Some((_, b)) => Some(text_from_bytes(b.as_slice())),
        None => None,
    }
}

/// The most bytes read of a pointer setting.
pub const MAX_SETTING_BYTES: u32 = 65_536;

/// Room to make for a registry value, from the answer to the question how long it
/// is; nothing where there is no such value, an empty one, or one longer than
/// `most`.
pub fn value_room(rc: u32, len: u32, most: u32) -> (room: Option<usize>)
    ensures
        room == if rc != 0 || len == 0 || len > most {
            None
        } else {
            Some(len as usize)
        },
{
    if rc != 0 || len == 0 || len > most {
        None
    } else {
        Some(len as usize)
    }
}

/// The bytes read: as many as the second answer says, and nothing where it failed.
pub fn value_read(rc: u32, ty: u32, buf: Vec<u8>, len: u32) -> (v: Option<(u32, Vec<u8>)>)
    ensures
        match v {
            Some((t, b)) => {
                &&& rc == 0
                &&& t == ty
                &&& b@ == if len < buf@.len() {
                    buf@.take(len as int)
                } else {
                    buf@
                }
            },
            None => rc != 0,
        },
{
    if rc != 0 {
        return None;
    }
    let mut b = buf;
    b.truncate(len as usize);
    Some((ty, b))
}

/// A point is its fraction, in units of 1/65536, and its whole part behind it; every
/// eight bytes make one, and the rest makes none.
pub proof fn law_a_point_is_a_fraction_and_a_whole_part(raw: Seq<u8>, i: int)
    requires
        0 <= i < raw.len() / 8,
    ensures
        curve_points(raw).len() == raw.len() / 8,
        curve_points(raw)[i] == crate::le::value32(raw, 8 * i) + 65_536 * crate::le::value32(
            raw,
            8 * i + 4,
        ),
{
}

/// The same eight bytes make the same point.
proof fn lemma_same_point(s: Seq<u8>, at: int, t: Seq<u8>, from: int)
    requires
        0 <= at <= s.len() - 8,
        0 <= from <= t.len() - 8,
        s.subrange(at, at + 8) == t.subrange(from, from + 8),
    ensures
        crate::le::value32(s, at) == crate::le::value32(t, from),
        crate::le::value32(s, at + 4) == crate::le::value32(t, from + 4),
{
    reveal(crate::le::value32);
    let a = s.subrange(at, at + 8);
    let b = t.subrange(from, from + 8);
    assert(a[0] == s[at] && a[1] == s[at + 1] && a[2] == s[at + 2] && a[3] == s[at + 3]);
    assert(a[4] == s[at + 4] && a[5] == s[at + 5] && a[6] == s[at + 6] && a[7] == s[at + 7]);
    assert(b[0] == t[from] && b[1] == t[from + 1] && b[2] == t[from + 2] && b[3] == t[from + 3]);
    assert(b[4] == t[from + 4] && b[5] == t[from + 5] && b[6] == t[from + 6] && b[7] == t[from
        + 7]);
}

/// The curves of two stretches of whole points are the curve of both.
pub proof fn law_curves_are_read_point_by_point(a: Seq<u8>, b: Seq<u8>)
    requires
        a.len() % 8 == 0,
    ensures
        curve_points(a + b) == curve_points(a) + curve_points(b),
{
    let all = a + b;
    assert(all.len() / 8 == a.len() / 8 + b.len() / 8);
    assert forall|i: int| 0 <= i < all.len() / 8 implies curve_points(all)[i] == (curve_points(a)
        + curve_points(b))[i] by {
        if i >= a.len() / 8 {
            let k = i - a.len() / 8;
            assert(8 * i == 8 * k + a.len());
            assert(all.subrange(8 * i, 8 * i + 8) =~= b.subrange(8 * k, 8 * k + 8));
            lemma_same_point(all, 8 * i, b, 8 * k);
        } else {
            assert(all.subrange(8 * i, 8 * i + 8) =~= a.subrange(8 * i, 8 * i + 8));
            lemma_same_point(all, 8 * i, a, 8 * i);
        }
    }
    assert(curve_points(all) =~= curve_points(a) + curve_points(b));
}

/// The snapshot holds each reading in its own place, and the curves both as they were
/// stored and as they were decoded.
pub proof fn law_a_snapshot_holds_the_readings(b: Ballistics, r: BallisticsReading)
    requires
        is_snapshot(b, r),
    ensures
        b.pointer_speed == r.pointer_speed,
        b.mouse_threshold1 == r.mouse@[0],
        b.mouse_threshold2 == r.mouse@[1],
        b.enhance_pointer_precision == r.mouse@[2],
        r.x_curve matches Some((_, raw)) ==> b.smooth_mouse_x_curve@ == raw@ && b.curve_x@
            == curve_points(raw@),
        r.y_curve matches Some((_, raw)) ==> b.smooth_mouse_y_curve@ == raw@ && b.curve_y@
            == curve_points(raw@),
        r.x_curve is None ==> b.curve_x@.len() == 0,
        r.y_curve is None ==> b.curve_y@.len() == 0,
        b.reg_sensitivity is Some <==> r.sensitivity is Some,
        b.reg_speed is Some <==> r.speed is Some,
        b.reg_threshold1 is Some <==> r.threshold1 is Some,
        b.reg_threshold2 is Some <==> r.threshold2 is Some,
{
}

} // verus!
