use vstd::prelude::*;

verus! {

/// Width and height of the tray icon, in pixels.
pub const TRAY_ICON_SIZE: u32 = 32;

/// An RGBA colour.
pub type Rgba = (u8, u8, u8, u8);

/// The colour of the mark: the expand arrows and the centre square.
pub open spec fn accent() -> Rgba {
    (102, 115, 242, 255)
}

/// The colour of the round background, slightly see-through.
pub open spec fn background() -> Rgba {
    (255, 255, 255, 220)
}

/// Fully transparent.
pub open spec fn clear() -> Rgba {
    (0, 0, 0, 0)
}

/// The pixel lies on the disc of radius 14 around the icon's centre.
pub open spec fn in_disc(x: int, y: int) -> bool {
    (x - 16) * (x - 16) + (y - 16) * (y - 16) <= 14 * 14
}

/// A coordinate on one of the two-pixel-thick strokes near an edge.
pub open spec fn on_stroke(v: int) -> bool {
    (7 <= v <= 8) || (23 <= v <= 24)
}

/// A coordinate along one of the seven-pixel arms of a corner arrow.
pub open spec fn along_arm(v: int) -> bool {
    (7 <= v <= 13) || (18 <= v <= 24)
}

/// The pixel belongs to one of the four corner arrows, each an L of a
/// horizontal and a vertical arm.
pub open spec fn on_arrow(x: int, y: int) -> bool {
    (on_stroke(y) && along_arm(x)) || (on_stroke(x) && along_arm(y))
}

/// The pixel lies on the outline of the 5x5 square at the centre.
pub open spec fn on_square(x: int, y: int) -> bool {
    &&& 14 <= x <= 18
    &&& 14 <= y <= 18
    &&& (x == 14 || x == 18 || y == 14 || y == 18)
}

/// The colour of pixel (x, y) of the tray icon: the mark over the round
/// background, transparent elsewhere.
pub open spec fn tray_pixel(x: int, y: int) -> Rgba {
    if on_arrow(x, y) || on_square(x, y) {
        accent()
    } else if in_disc(x, y) {
        background()
    } else {
        clear()
    }
}

/// Channel `c` (red, green, blue, alpha) of a colour.
pub open spec fn channel(p: Rgba, c: int) -> u8 {
    if c == 0 {
        p.0
    } else if c == 1 {
        p.1
    } else if c == 2 {
        p.2
    } else {
        p.3
    }
}

/// Byte `j` of the icon's RGBA data, laid out row by row.
pub open spec fn tray_byte(j: int) -> u8 {
    let k = j / 4;
    channel(tray_pixel(k % 32, k / 32), j % 4)
}

fn pixel_at(x: u32, y: u32) -> (p: Rgba)
    requires
        x < 32,
        y < 32,
    ensures
        p == tray_pixel(x as int, y as int),
{
    let on_stroke_y = (7 <= y && y <= 8) || (23 <= y && y <= 24);
    let on_stroke_x = (7 <= x && x <= 8) || (23 <= x && x <= 24);
    let along_x = (7 <= x && x <= 13) || (18 <= x && x <= 24);
    let along_y = (7 <= y && y <= 13) || (18 <= y && y <= 24);
    let arrow = (on_stroke_y && along_x) || (on_stroke_x && along_y);
    let square = 14 <= x && x <= 18 && 14 <= y && y <= 18 && (x == 14 || x == 18 || y == 14
        || y == 18);
    if arrow || square {
        (102, 115, 242, 255)
    } else {
        let dx: i32 = x as i32 - 16;
        let dy: i32 = y as i32 - 16;
        assert(0 <= dx * dx <= 256 && 0 <= dy * dy <= 256) by (nonlinear_arith)
            requires
                -16 <= dx <= 15,
                -16 <= dy <= 15,
        ;
        if dx * dx + dy * dy <= 14 * 14 {
            (255, 255, 255, 220)
        } else {
            (0, 0, 0, 0)
        }
    }
}

/// The RGBA data of the tray icon: 32 rows of 32 pixels, four bytes each.
pub fn tray_icon_rgba() -> (v: Vec<u8>)
    ensures
        v@.len() == 4 * 32 * 32,
        forall|j: int| 0 <= j < v@.len() ==> v@[j] == tray_byte(j),
{
    let mut v: Vec<u8> = Vec::new();
    for k in 0..1024u32
        invariant
            v@.len() == 4 * k,
            forall|j: int| 0 <= j < v@.len() ==> v@[j] == tray_byte(j),
    {
        let p = pixel_at(k % 32, k / 32);
        let base = v.len();
        v.push(p.0);
        v.push(p.1);
        v.push(p.2);
        v.push(p.3);
        assert forall|j: int| base <= j < v@.len() implies v@[j] == tray_byte(j) by {
            assert(j / 4 == k as int);
            assert(j % 4 == j - base);
        }
    }
    v
}

} // verus!
