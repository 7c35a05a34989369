use pexand::ui::icons::{ico_would_overflow, parse_ico_to_rgba};
use pexand::ui::tray::tray_icon_rgba;

fn le16(v: u16) -> [u8; 2] {
    v.to_le_bytes()
}

fn le32(v: u32) -> [u8; 4] {
    v.to_le_bytes()
}

/// An icon file with one entry holding a 32-bit bitmap of `w` x `h`
/// pixels, whose pixel `k` (bottom-up, BGRA) is `[k, k + 1, k + 2, 255]`.
fn make_ico(dir_w: u8, dir_h: u8, w: u32, h: u32) -> Vec<u8> {
    let pixels = (w * h * 4) as usize;
    let image_len = 40 + pixels;
    let mut d = Vec::new();
    d.extend_from_slice(&le16(0));
    d.extend_from_slice(&le16(1));
    d.extend_from_slice(&le16(1));
    d.push(dir_w);
    d.push(dir_h);
    d.push(0);
    d.push(0);
    d.extend_from_slice(&le16(1));
    d.extend_from_slice(&le16(32));
    d.extend_from_slice(&le32(image_len as u32));
    d.extend_from_slice(&le32(22));
    d.extend_from_slice(&le32(40));
    d.extend_from_slice(&le32(w));
    d.extend_from_slice(&le32(h * 2));
    d.extend_from_slice(&le16(1));
    d.extend_from_slice(&le16(32));
    d.extend_from_slice(&[0u8; 24]);
    for k in 0..(w * h) {
        let b = k as u8;
        d.push(b);
        d.push(b.wrapping_add(1));
        d.push(b.wrapping_add(2));
        d.push(255);
    }
    d
}

#[test]
fn decodes_a_bitmap_entry_top_down_as_rgba() {
    let ico = make_ico(2, 2, 2, 2);
    assert!(!ico_would_overflow(&ico));
    let (w, h, rgba) = parse_ico_to_rgba(&ico).unwrap();
    assert_eq!((w, h), (2, 2));
    // Bottom-up rows: stored pixels 2 and 3 form the top row.
    assert_eq!(
        rgba,
        vec![4, 3, 2, 255, 5, 4, 3, 255, 2, 1, 0, 255, 3, 2, 1, 255]
    );
}

#[test]
fn short_or_empty_files_are_rejected() {
    assert_eq!(parse_ico_to_rgba(&[]), None);
    assert_eq!(parse_ico_to_rgba(&[0, 0, 1, 0, 0, 0]), None);
    assert_eq!(parse_ico_to_rgba(&[0, 0, 1, 0, 1, 0]), None);
}

#[test]
fn truncated_pixel_data_is_rejected() {
    let mut ico = make_ico(2, 2, 2, 2);
    ico.truncate(ico.len() - 1);
    assert_eq!(parse_ico_to_rgba(&ico), None);
}

#[test]
fn other_bit_depths_are_rejected() {
    let mut ico = make_ico(2, 2, 2, 2);
    ico[22 + 14] = 24;
    assert_eq!(parse_ico_to_rgba(&ico), None);
}

#[test]
fn png_entries_are_rejected() {
    let mut ico = make_ico(2, 2, 2, 2);
    ico[22 + 1] = b'P';
    ico[22 + 2] = b'N';
    ico[22 + 3] = b'G';
    assert_eq!(parse_ico_to_rgba(&ico), None);
}

#[test]
fn least_height_would_overflow() {
    let mut ico = make_ico(2, 2, 2, 2);
    ico[22 + 8..22 + 12].copy_from_slice(&le32(0x8000_0000));
    assert!(ico_would_overflow(&ico));
}

#[test]
fn tray_icon_has_the_mark_and_a_round_background() {
    let rgba = tray_icon_rgba();
    assert_eq!(rgba.len(), 32 * 32 * 4);
    let px = |x: usize, y: usize| {
        let o = (y * 32 + x) * 4;
        (rgba[o], rgba[o + 1], rgba[o + 2], rgba[o + 3])
    };
    let accent = (102, 115, 242, 255);
    let background = (255, 255, 255, 220);
    let clear = (0, 0, 0, 0);
    assert_eq!(px(0, 0), clear);
    assert_eq!(px(31, 31), clear);
    assert_eq!(px(7, 7), accent);
    assert_eq!(px(13, 8), accent);
    assert_eq!(px(24, 24), accent);
    assert_eq!(px(14, 16), accent);
    assert_eq!(px(16, 14), accent);
    assert_eq!(px(16, 16), background);
    assert_eq!(px(16, 3), background);
    assert_eq!(px(16, 1), clear);
    assert_eq!(px(10, 10), background);
}
