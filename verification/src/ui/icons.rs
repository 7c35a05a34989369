use vstd::prelude::*;

verus! {

/// The little-endian 16-bit number at `d[o..o + 2]`.
pub open spec fn le16(d: Seq<u8>, o: int) -> int {
    d[o] as int + 256 * d[o + 1]
}

/// The little-endian 32-bit number at `d[o..o + 4]`.
pub open spec fn le32(d: Seq<u8>, o: int) -> int {
    d[o] as int + 256 * d[o + 1] + 65536 * d[o + 2] + 16777216 * d[o + 3]
}

/// An icon directory dimension: the byte 0 stands for 256.
pub open spec fn dimension(b: u8) -> int {
    if b == 0 {
        256
    } else {
        b as int
    }
}

/// Width and height of directory entry `i`.
pub open spec fn entry_width(d: Seq<u8>, i: int) -> int {
    dimension(d[6 + 16 * i])
}

pub open spec fn entry_height(d: Seq<u8>, i: int) -> int {
    dimension(d[7 + 16 * i])
}

pub open spec fn entry_is_32(d: Seq<u8>, i: int) -> bool {
    entry_width(d, i) == 32 && entry_height(d, i) == 32
}

pub open spec fn entry_area(d: Seq<u8>, i: int) -> int {
    entry_width(d, i) * entry_height(d, i)
}

/// Entry `i` is the one the decoder uses: the first 32x32 entry when there
/// is one, and otherwise the first entry of largest area.
pub open spec fn is_chosen_entry(d: Seq<u8>, count: int, i: int) -> bool {
    &&& 0 <= i < count
    &&& if exists|k: int| 0 <= k < count && #[trigger] entry_is_32(d, k) {
        entry_is_32(d, i) && forall|k: int| 0 <= k < i ==> !#[trigger] entry_is_32(d, k)
    } else {
        &&& forall|k: int| 0 <= k < count ==> #[trigger] entry_area(d, k) <= entry_area(d, i)
        &&& forall|k: int| 0 <= k < i ==> #[trigger] entry_area(d, k) < entry_area(d, i)
    }
}

/// The value of a 32-bit two's complement number, made non-negative.
pub open spec fn abs_i32(u: int) -> int {
    if u >= 0x8000_0000 {
        0x1_0000_0000 - u
    } else {
        u
    }
}

/// How far the decoder gets through a file.
pub enum IcoHeader {
    /// The file is rejected.
    Rejected,
    /// A 32-bit bitmap with this width, height and pixel data.
    Bitmap(int, int, Seq<u8>),
    /// The bitmap's height field holds the least 32-bit number, whose
    /// absolute value does not exist.
    BadHeight,
    /// A 32-bit bitmap whose size in bytes does not fit in 32 bits.
    TooLarge,
}

/// Reads the directory and the chosen bitmap's header.
pub open spec fn read_header(d: Seq<u8>) -> IcoHeader {
    if d.len() < 6 {
        IcoHeader::Rejected
    } else {
        let count = le16(d, 4);
        if count == 0 || d.len() < 6 + count * 16 {
            IcoHeader::Rejected
        } else {
            let e = choose|i: int| is_chosen_entry(d, count, i);
            let eo = 6 + 16 * e;
            let size = le32(d, eo + 8);
            let off = le32(d, eo + 12);
            if off + size > d.len() {
                IcoHeader::Rejected
            } else {
                let img = d.subrange(off, off + size);
                if img.len() > 8 && img[1] == 80 && img[2] == 78 && img[3] == 71 {
                    IcoHeader::Rejected
                } else if img.len() < 40 {
                    IcoHeader::Rejected
                } else if le32(img, 8) == 0x8000_0000 {
                    IcoHeader::BadHeight
                } else {
                    let w = le32(img, 4);
                    let h = abs_i32(le32(img, 8)) / 2;
                    if le16(img, 14) != 32 {
                        IcoHeader::Rejected
                    } else if w * h * 4 > u32::MAX {
                        IcoHeader::TooLarge
                    } else if 40 + w * h * 4 > img.len() {
                        IcoHeader::Rejected
                    } else {
                        IcoHeader::Bitmap(w, h, img.subrange(40, 40 + w * h * 4))
                    }
                }
            }
        }
    }
}

/// The source byte, within a BGRA pixel, of RGBA channel `c`.
pub open spec fn bgra_channel(c: int) -> int {
    if c == 0 {
        2
    } else if c == 2 {
        0
    } else {
        c
    }
}

/// `out` is the bottom-up BGRA bitmap `px` (`w` by `h`) turned into top-down
/// RGBA rows.
pub open spec fn is_flipped_rgba(px: Seq<u8>, w: int, h: int, out: Seq<u8>) -> bool {
    &&& out.len() == w * h * 4
    &&& forall|r: int, x: int, c: int|
        0 <= r < h && 0 <= x < w && 0 <= c < 4 ==> #[trigger] out[(r * w + x) * 4 + c] == px[((h
            - 1 - r) * w + x) * 4 + bgra_channel(c)]
}

/// Only one entry is the chosen one.
proof fn lemma_chosen_unique(d: Seq<u8>, count: int, e1: int, e2: int)
    requires
        is_chosen_entry(d, count, e1),
        is_chosen_entry(d, count, e2),
    ensures
        e1 == e2,
{
    if exists|k: int| 0 <= k < count && #[trigger] entry_is_32(d, k) {
        if e1 < e2 {
            assert(!entry_is_32(d, e1));
        }
        if e2 < e1 {
            assert(!entry_is_32(d, e2));
        }
    } else {
        if e1 < e2 {
            assert(entry_area(d, e1) < entry_area(d, e2));
            assert(entry_area(d, e2) <= entry_area(d, e1));
        }
        if e2 < e1 {
            assert(entry_area(d, e2) < entry_area(d, e1));
            assert(entry_area(d, e1) <= entry_area(d, e2));
        }
    }
}

proof fn lemma_pixel_bounds(r: int, x: int, c: int, w: int, h: int)
    requires
        0 <= r < h,
        0 <= x < w,
        0 <= c < 4,
    ensures
        0 <= (r * w + x) * 4 + c < w * h * 4,
        0 <= ((h - 1 - r) * w + x) * 4 + c < w * h * 4,
        (r * w + x) * 4 + 4 <= w * h * 4,
{
    assert(0 <= r * w) by (nonlinear_arith)
        requires
            0 <= r,
            0 <= w,
    ;
    assert(r * w + x < w * h) by (nonlinear_arith)
        requires
            0 <= r < h,
            0 <= x < w,
    ;
    assert(0 <= (h - 1 - r) * w) by (nonlinear_arith)
        requires
            0 <= r < h,
            0 <= w,
    ;
    assert((h - 1 - r) * w + x < w * h) by (nonlinear_arith)
        requires
            0 <= r < h,
            0 <= x < w,
    ;
}

proof fn lemma_pixel_order(r1: int, x1: int, r2: int, x2: int, w: int)
    requires
        0 <= x1 < w,
        0 <= x2 < w,
        0 <= r1,
        0 <= r2,
        r1 < r2 || (r1 == r2 && x1 < x2),
    ensures
        r1 * w + x1 < r2 * w + x2,
{
    if r1 < r2 {
        assert(r1 * w + w <= r2 * w) by (nonlinear_arith)
            requires
                r1 < r2,
                0 <= w,
        ;
    }
}

/// The little-endian 16-bit number at `d[o..o + 2]`.
fn read_le16(d: &[u8], o: u64) -> (v: u64)
    requires
        o + 1 < d@.len(),
    ensures
        v == le16(d@, o as int),
        v < 65536,
{
    let i = o as usize;
    d[i] as u64 + 256 * (d[i + 1] as u64)
}

/// The little-endian 32-bit number at `d[o..o + 4]`.
fn read_le32(d: &[u8], o: u64) -> (v: u64)
    requires
        o + 3 < d@.len(),
    ensures
        v == le32(d@, o as int),
        v < 0x1_0000_0000,
{
    let i = o as usize;
    d[i] as u64 + 256 * (d[i + 1] as u64) + 65536 * (d[i + 2] as u64) + 16777216 * (d[i
        + 3] as u64)
}

/// Whether decoding `ico_data` with `parse_ico_to_rgba` would overflow: the
/// chosen bitmap's height is the least 32-bit number, or its size in bytes
/// does not fit in 32 bits.
pub fn ico_would_overflow(ico_data: &[u8]) -> (b: bool)
    ensures
        b == (read_header(ico_data@) is BadHeight || read_header(ico_data@) is TooLarge),
{
    match decode_header(ico_data) {
        HeaderResult::BadHeight | HeaderResult::TooLarge => true,
        _ => false,
    }
}

enum HeaderResult {
    Rejected,
    /// Width, height, and the position of the pixel data.
    Bitmap(u64, u64, u64),
    BadHeight,
    TooLarge,
}

spec fn header_matches(r: HeaderResult, d: Seq<u8>) -> bool {
    match (r, read_header(d)) {
        (HeaderResult::Rejected, IcoHeader::Rejected) => true,
        (HeaderResult::BadHeight, IcoHeader::BadHeight) => true,
        (HeaderResult::TooLarge, IcoHeader::TooLarge) => true,
        (HeaderResult::Bitmap(w, h, pb), IcoHeader::Bitmap(w2, h2, px)) => {
            &&& w == w2
            &&& h == h2
            &&& w * h * 4 <= u32::MAX
            &&& pb + w * h * 4 <= d.len()
            &&& px == d.subrange(pb as int, pb + w * h * 4)
        },
        _ => false,
    }
}

/// Reads the directory and the chosen bitmap's header.
fn decode_header(d: &[u8]) -> (r: HeaderResult)
    ensures
        header_matches(r, d@),
{
    let len = d.len() as u64;
    if len < 6 {
        return HeaderResult::Rejected;
    }
    let count = read_le16(d, 4);
    if count == 0 || len < 6 + count * 16 {
        return HeaderResult::Rejected;
    }
    let mut found: Option<u64> = None;
    let mut best: u64 = 0;
    let mut best_size: u64 = 0;
    let mut i: u64 = 0;
    while i < count && found.is_none()
        invariant
            0 < count,
            6 + count * 16 <= len == d@.len(),
            0 <= i <= count,
            found is None ==> forall|k: int| 0 <= k < i ==> !#[trigger] entry_is_32(d@, k),
            found matches Some(f) ==> is_chosen_entry(d@, count as int, f as int),
            found is None && i > 0 ==> best < i && best_size == entry_area(d@, best as int),
            found is None && i > 0 ==> forall|k: int|
                0 <= k < i ==> #[trigger] entry_area(d@, k) <= entry_area(d@, best as int),
            found is None && i > 0 ==> forall|k: int|
                0 <= k < best ==> #[trigger] entry_area(d@, k) < entry_area(d@, best as int),
            found is None && i == 0 ==> best_size == 0,
        decreases count - i + (if found is None { 1int } else { 0int }),
    {
        let offset = (6 + i * 16) as usize;
        let wb = d[offset];
        let width: u64 = if wb == 0 { 256 } else { wb as u64 };
        let hb = d[offset + 1];
        let height: u64 = if hb == 0 { 256 } else { hb as u64 };
        proof {
            assert(width * height <= 65536) by (nonlinear_arith)
                requires
                    width <= 256,
                    height <= 256,
            ;
        }
        let size = width * height;
        proof {
            assert(entry_width(d@, i as int) == width);
            assert(entry_height(d@, i as int) == height);
        }
        if width == 32 && height == 32 {
            found = Some(i);
            proof {
                assert(exists|k: int| 0 <= k < count && #[trigger] entry_is_32(d@, k)) by {
                    assert(entry_is_32(d@, i as int));
                }
            }
        } else {
            if size > best_size || i == 0 {
                best = i;
                best_size = size;
            }
            i = i + 1;
        }
    }
    let e = match found {
        Some(f) => f,
        None => best,
    };
    proof {
        if found is None {
            assert forall|k: int| !(0 <= k < count && #[trigger] entry_is_32(d@, k)) by {}
            assert(0 < entry_area(d@, 0)) by (nonlinear_arith)
                requires
                    entry_area(d@, 0) == entry_width(d@, 0) * entry_height(d@, 0),
                    entry_width(d@, 0) > 0,
                    entry_height(d@, 0) > 0,
            ;
        }
        assert(is_chosen_entry(d@, count as int, e as int));
        let c = choose|k: int| is_chosen_entry(d@, count as int, k);
        lemma_chosen_unique(d@, count as int, c, e as int);
    }
    let eo = 6 + 16 * e;
    let size = read_le32(d, eo + 8);
    let off = read_le32(d, eo + 12);
    if off + size > len {
        return HeaderResult::Rejected;
    }
    let ghost img = d@.subrange(off as int, off + size);
    let o = off as usize;
    if size > 8 && d[o + 1] == 80 && d[o + 2] == 78 && d[o + 3] == 71 {
        return HeaderResult::Rejected;
    }
    if size < 40 {
        return HeaderResult::Rejected;
    }
    let raw_h = read_le32(d, off + 8);
    proof {
        assert(raw_h == le32(img, 8));
    }
    if raw_h == 0x8000_0000 {
        return HeaderResult::BadHeight;
    }
    let width = read_le32(d, off + 4);
    let abs_h = if raw_h >= 0x8000_0000 { 0x1_0000_0000 - raw_h } else { raw_h };
    let height = abs_h / 2;
    let bpp = read_le16(d, off + 14);
    proof {
        assert(width == le32(img, 4));
        assert(bpp == le16(img, 14));
    }
    if bpp != 32 {
        return HeaderResult::Rejected;
    }
    proof {
        assert(width * height < 0x1_0000_0000_0000_0000) by (nonlinear_arith)
            requires
                width < 0x1_0000_0000,
                height < 0x1_0000_0000,
        ;
    }
    let area = width * height;
    if area > 0xFFFF_FFFF / 4 {
        return HeaderResult::TooLarge;
    }
    let bytes = area * 4;
    if 40 + bytes > size {
        return HeaderResult::Rejected;
    }
    proof {
        assert(img.subrange(40, 40 + width * height * 4) =~= d@.subrange(off + 40, off + 40 + width
            * height * 4));
    }
    HeaderResult::Bitmap(width, height, off + 40)
}

/// Decodes an icon file: reads its directory, picks the first 32x32 entry
/// (or else the first largest one), and turns a 32-bit bitmap entry into
/// top-down RGBA rows. PNG entries, other bit depths and truncated data give
/// `None`.
pub fn parse_ico_to_rgba(ico_data: &[u8]) -> (r: Option<(u32, u32, Vec<u8>)>)
    requires
        !(read_header(ico_data@) is BadHeight),
        !(read_header(ico_data@) is TooLarge),
    ensures
        match read_header(ico_data@) {
            IcoHeader::Bitmap(w, h, px) => r matches Some((rw, rh, out)) && rw == w && rh == h
                && is_flipped_rgba(px, w, h, out@),
            _ => r is None,
        },
{
    match decode_header(ico_data) {
        HeaderResult::Bitmap(w, h, pb) => {
            let ghost px = ico_data@.subrange(pb as int, pb + w * h * 4);
            let total: usize = ico_data.len();
            let mut rgba: Vec<u8> = Vec::new();
            let mut r: u64 = 0;
            while r < h
                invariant
                    w * h * 4 <= u32::MAX,
                    pb + w * h * 4 <= ico_data@.len(),
                    total == ico_data@.len(),
                    px == ico_data@.subrange(pb as int, pb + w * h * 4),
                    0 <= r <= h,
                    rgba@.len() == r * w * 4,
                    forall|r1: int, x1: int, c: int|
                        0 <= r1 < r && 0 <= x1 < w && 0 <= c < 4 ==> #[trigger] rgba@[(r1 * w + x1)
                            * 4 + c] == px[((h - 1 - r1) * w + x1) * 4 + bgra_channel(c)],
                decreases h - r,
            {
                let y = h - 1 - r;
                let mut x: u64 = 0;
                while x < w
                    invariant
                        w * h * 4 <= u32::MAX,
                        pb + w * h * 4 <= ico_data@.len(),
                        total == ico_data@.len(),
                        px == ico_data@.subrange(pb as int, pb + w * h * 4),
                        0 <= r < h,
                        y == h - 1 - r,
                        0 <= x <= w,
                        rgba@.len() == (r * w + x) * 4,
                        forall|r1: int, x1: int, c: int|
                            (0 <= r1 < r || (r1 == r && x1 < x)) && 0 <= x1 < w && 0 <= c < 4
                                ==> #[trigger] rgba@[(r1 * w + x1) * 4 + c] == px[((h - 1 - r1) * w
                                + x1) * 4 + bgra_channel(c)],
                    decreases w - x,
                {
                    proof {
                        lemma_pixel_bounds(r as int, x as int, 3, w as int, h as int);
                        assert(y * w + x == (h - 1 - r) * w + x);
                        assert(pb + (y * w + x) * 4 + 3 < ico_data@.len());
                    }
                    proof {
                        assert(y * w + x < w * h) by (nonlinear_arith)
                            requires
                                y < h,
                                x < w,
                        ;
                    }
                    let idx = y * w + x;
                    proof {
                        assert(idx * 4 + 3 < w * h * 4);
                        assert(pb + idx * 4 + 3 < ico_data@.len());
                    }
                    let offset = (pb + idx * 4) as usize;
                    let ghost before = rgba@;
                    let ghost base = (r * w + x) * 4;
                    rgba.push(ico_data[offset + 2]);
                    rgba.push(ico_data[offset + 1]);
                    rgba.push(ico_data[offset]);
                    rgba.push(ico_data[offset + 3]);
                    proof {
                        assert forall|r1: int, x1: int, c: int|
                            (0 <= r1 < r || (r1 == r && x1 < x + 1)) && 0 <= x1 < w && 0 <= c < 4
                                implies #[trigger] rgba@[(r1 * w + x1) * 4 + c] == px[((h - 1 - r1)
                                * w + x1) * 4 + bgra_channel(c)] by {
                            lemma_pixel_bounds(r1, x1, c, w as int, h as int);
                            if r1 == r && x1 == x {
                                assert((r1 * w + x1) * 4 + c == base + c);
                            } else {
                                lemma_pixel_order(r1, x1, r as int, x as int, w as int);
                                assert((r1 * w + x1) * 4 + c < base);
                                assert(rgba@[(r1 * w + x1) * 4 + c] == before[(r1 * w + x1) * 4 + c]);
                            }
                        }
                    }
                    x = x + 1;
                }
                proof {
                    assert((r * w + w) * 4 == (r + 1) * w * 4) by (nonlinear_arith);
                }
                r = r + 1;
            }
            proof {
                assert(h * w * 4 == w * h * 4) by (nonlinear_arith);
            }
            Some((w as u32, h as u32, rgba))
        },
        _ => None,
    }
}

} // verus!
