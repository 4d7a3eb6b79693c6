//! The tray icon.
//!
//! The icon is drawn in code. The glyph is symmetric about its centre column, and
//! green and grey have the same bytes whichever way round the channels are taken.

use vstd::prelude::*;

use crate::utf16::wide;

verus! {

/// What the recorder is doing.
#[derive(Clone, Copy, PartialEq, Eq, Debug, Structural)]
pub enum TrayState {
    Recording,
    Paused,
    Error,
}

/// Red, green and blue.
pub type Colour = (u8, u8, u8);

impl TrayState {
    pub open spec fn rgb_spec(self) -> Colour {
        match self {
            TrayState::Recording => (0, 200, 0),
            TrayState::Paused => (128, 128, 128),
            TrayState::Error => (255, 140, 0),
        }
    }

    /// The colour of the icon.
    pub fn rgb(self) -> (c: Colour)
        ensures
            c == self.rgb_spec(),
    {
        match self {
            TrayState::Recording => (0, 200, 0),
            TrayState::Paused => (128, 128, 128),
            TrayState::Error => (255, 140, 0),
        }
    }

    pub open spec fn tip_spec(self) -> Seq<char> {
        match self {
            TrayState::Recording => "HumanTelemetry - Recording"@,
            TrayState::Paused => "HumanTelemetry - Paused"@,
            TrayState::Error => "HumanTelemetry - Error (see window)"@,
        }
    }

    /// What the icon says when pointed at.
    pub fn tip(self) -> (s: &'static str)
        ensures
            s@ == self.tip_spec(),
    {
        match self {
            TrayState::Recording => "HumanTelemetry - Recording",
            TrayState::Paused => "HumanTelemetry - Paused",
            TrayState::Error => "HumanTelemetry - Error (see window)",
        }
    }
}

/// What the icon says, in 16-bit units, as far as there is room for it and the zero
/// behind it.
pub fn tip_units(state: TrayState, room: usize) -> (v: Vec<u16>)
    requires
        room > 0,
    ensures
        v@ == if crate::utf16::encoded(state.tip_spec()).len() < room {
            crate::utf16::encoded(state.tip_spec())
        } else {
            crate::utf16::encoded(state.tip_spec()).take(room - 1)
        },
{
    let mut v = wide(state.tip());
    let ghost all = crate::utf16::encoded(state.tip_spec());
    let n: usize = v.len() - 1;
    let keep: usize = if n < room {
        n
    } else {
        room - 1
    };
    v.truncate(keep);
    assert(v@ =~= all.take(keep as int));
    assert(all.take(all.len() as int) =~= all);
    v
}

/// Whether the icon is to be redrawn, which it is when the state changes.
pub fn needs_redraw(shown: TrayState, state: TrayState) -> (r: bool)
    ensures
        r == (shown != state),
{
    shown != state
}

// ---- the icon ---------------------------------------------------------------------------

/// Width and height in pixels.
pub const ICON_SIZE: usize = 16;

pub const EDGE: (u8, u8, u8) = (20, 24, 28);

pub const WHEEL: (u8, u8, u8) = (255, 255, 255);

/// The row between the buttons and the body.
pub const SPLIT_ROW: usize = 6;

/// The column between the buttons.
pub const SPLIT_COLUMN: usize = 8;

/// The rows of the wheel.
pub const WHEEL_TOP: usize = 3;

pub const WHEEL_BOTTOM: usize = 5;

/// How far a pixel lies from the centre of the body, squared, in units in which the
/// rim of the body lies at `rim`. The body is an ellipse: 0.30 of the icon wide and
/// 0.44 high to each side of the centre.
pub open spec fn remoteness(x: int, y: int) -> int {
    (2 * x - 15) * (2 * x - 15) * 19_824_640_000 + (2 * y - 15) * (2 * y - 15) * 9_216_000_000
}

/// Where the rim of the body lies.
pub open spec fn rim() -> int {
    1_827_038_822_400
}

/// The pixel lies in the body.
pub open spec fn in_body(x: int, y: int) -> bool {
    remoteness(x, y) <= rim()
}

/// The pixel lies in the outer part of the body, which is drawn as its edge.
pub open spec fn in_edge(x: int, y: int) -> bool {
    in_body(x, y) && 100 * remoteness(x, y) > 62 * rim()
}

/// The colour of a pixel, if it has one.
pub open spec fn pixel(state: TrayState, x: int, y: int) -> Option<Colour> {
    if x == SPLIT_COLUMN && WHEEL_TOP <= y <= WHEEL_BOTTOM {
        Some(WHEEL)
    } else if !in_body(x, y) {
        None
    } else if y == SPLIT_ROW || (x == SPLIT_COLUMN && y < SPLIT_ROW) || in_edge(x, y) {
        Some(EDGE)
    } else {
        Some(state.rgb_spec())
    }
}

/// The byte of the icon at that place: blue, green, red and opacity of each pixel,
/// row by row.
pub open spec fn icon_byte(state: TrayState, i: int) -> u8 {
    match pixel(state, i / 4 % 16, i / 64) {
        None => 0,
        Some((r, g, b)) => if i % 4 == 0 {
            b
        } else if i % 4 == 1 {
            g
        } else if i % 4 == 2 {
            r
        } else {
            255
        },
    }
}

/// The colour of a pixel, if it has one.
fn colour_at(state: TrayState, x: usize, y: usize) -> (c: Option<Colour>)
    requires
        x < ICON_SIZE,
        y < ICON_SIZE,
    ensures
        c == pixel(state, x as int, y as int),
{
    if x == SPLIT_COLUMN && WHEEL_TOP <= y && y <= WHEEL_BOTTOM {
        return Some((255, 255, 255));
    }
    let dx: i64 = 2 * (x as i64) - 15;
    let dy: i64 = 2 * (y as i64) - 15;
    proof {
        lemma_small_square(dx as int);
        lemma_small_square(dy as int);
    }
    let d: i64 = dx * dx * 19_824_640_000 + dy * dy * 9_216_000_000;
    assert(d == remoteness(x as int, y as int));
    if d > 1_827_038_822_400 {
        None
    } else if y == SPLIT_ROW || (x == SPLIT_COLUMN && y < SPLIT_ROW) || 100 * d > 62
        * 1_827_038_822_400 {
        Some((20, 24, 28))
    } else {
        Some(state.rgb())
    }
}

proof fn lemma_small_square(d: int)
    by (nonlinear_arith)
    requires
        -15 <= d <= 15,
    ensures
        0 <= d * d <= 225,
{
}

/// The icon: a mouse in the colour of the state.
pub fn make_icon(state: TrayState) -> (bits: Vec<u8>)
    ensures
        bits@.len() == 1024,
        forall|i: int| 0 <= i < 1024 ==> #[trigger] bits@[i] == icon_byte(state, i),
{
    let mut bits: Vec<u8> = Vec::new();
    let mut p: usize = 0;
    while p < 256
        invariant
            p <= 256,
            bits@.len() == 4 * p,
            forall|i: int| 0 <= i < 4 * p ==> #[trigger] bits@[i] == icon_byte(state, i),
        decreases 256 - p,
    {
        let x: usize = p % 16;
        let y: usize = p / 16;
        let c = colour_at(state, x, y);
        let ghost before = bits@;
        match c {
            Some((r, g, b)) => {
                bits.push(b);
                bits.push(g);
                bits.push(r);
                bits.push(255);
            },
            None => {
                bits.push(0);
                bits.push(0);
                bits.push(0);
                bits.push(0);
            },
        }
        proof {
            lemma_byte_place(p as int);
            assert forall|i: int| 0 <= i < 4 * p + 4 implies #[trigger] bits@[i] == icon_byte(
                state,
                i,
            ) by {
                if i < 4 * p {
                    assert(bits@[i] == before[i]);
                } else {
                    assert(i == 4 * p || i == 4 * p + 1 || i == 4 * p + 2 || i == 4 * p + 3);
                }
            }
        }
        p = p + 1;
    }
    bits
}

proof fn lemma_byte_place(p: int)
    requires
        0 <= p < 256,
    ensures
        forall|k: int| 0 <= k < 4 ==> #[trigger] ((4 * p + k) / 4) == p && (4 * p + k) % 4 == k && (
        4 * p + k) / 64 == p / 16 && (4 * p + k) / 4 % 16 == p % 16,
{
}

// ---- laws -----------------------------------------------------------------------------

/// The body is the same to the left and to the right of its centre.
pub proof fn law_body_is_symmetric(x: int, y: int)
    ensures
        in_body(x, y) == in_body(15 - x, y),
        in_edge(x, y) == in_edge(15 - x, y),
        in_body(x, y) == in_body(x, 15 - y),
{
    assert((2 * (15 - x) - 15) * (2 * (15 - x) - 15) == (2 * x - 15) * (2 * x - 15))
        by (nonlinear_arith);
    assert((2 * (15 - y) - 15) * (2 * (15 - y) - 15) == (2 * y - 15) * (2 * y - 15))
        by (nonlinear_arith);
}

/// Green and grey look the same whichever way round the channels are taken.
pub proof fn law_normal_colours_survive_swapped_channels(state: TrayState)
    requires
        state != TrayState::Error,
    ensures
        state.rgb_spec().0 == state.rgb_spec().2,
{
}

/// The icon tells the states apart by colour, and so does what it says when pointed at.
pub proof fn law_states_look_different(a: TrayState, b: TrayState)
    requires
        a != b,
    ensures
        a.rgb_spec() != b.rgb_spec(),
        a.tip_spec() != b.tip_spec(),
        TrayState::Recording.rgb_spec() == (0u8, 200u8, 0u8),
        TrayState::Paused.rgb_spec() == (128u8, 128u8, 128u8),
        TrayState::Error.rgb_spec() == (255u8, 140u8, 0u8),
{
    reveal_strlit("HumanTelemetry - Recording");
    reveal_strlit("HumanTelemetry - Paused");
    reveal_strlit("HumanTelemetry - Error (see window)");
    assert("HumanTelemetry - Recording"@.len() == 26);
    assert("HumanTelemetry - Paused"@.len() == 23);
    assert("HumanTelemetry - Error (see window)"@.len() == 35);
}

/// Each pixel has its four bytes of the icon: blue, green, red and opacity. One that is
/// drawn is opaque, and one that is not has nothing at all.
pub proof fn law_pixels_are_stored_blue_first(state: TrayState, x: int, y: int)
    requires
        0 <= x < 16,
        0 <= y < 16,
    ensures
        ({
            let at = 4 * (16 * y + x);
            &&& pixel(state, x, y) matches Some(c) ==> {
                &&& icon_byte(state, at) == c.2
                &&& icon_byte(state, at + 1) == c.1
                &&& icon_byte(state, at + 2) == c.0
                &&& icon_byte(state, at + 3) == 255
            }
            &&& pixel(state, x, y) is None ==> {
                &&& icon_byte(state, at) == 0
                &&& icon_byte(state, at + 1) == 0
                &&& icon_byte(state, at + 2) == 0
                &&& icon_byte(state, at + 3) == 0
            }
        }),
{
}

/// All of the icon but its lines tells the state: the wheel is white and the edge dark
/// whatever the state is, the rest of the body has the colour of the state, and nothing
/// is drawn around the body.
pub proof fn law_the_body_has_the_colour_of_the_state(a: TrayState, b: TrayState, x: int, y: int)
    ensures
        (pixel(a, x, y) is None) == (pixel(b, x, y) is None),
        pixel(a, x, y) is None ==> !in_body(x, y),
        pixel(a, x, y) matches Some(c) ==> {
            ||| c == (255u8, 255u8, 255u8) && x == 8 && 3 <= y <= 5
            ||| c == (20u8, 24u8, 28u8) && pixel(b, x, y) == Some(c) && (in_edge(x, y) || y == 6
                || (x == 8 && y < 3))
            ||| c == a.rgb_spec() && in_body(x, y) && !in_edge(x, y) && y != 6
        },
        in_body(x, y) && !in_edge(x, y) && y != 6 && x != 8 ==> pixel(a, x, y) == Some(
            a.rgb_spec(),
        ),
{
}

} // verus!
