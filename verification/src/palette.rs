//! The colours of the branch lanes.

use vstd::prelude::*;
use egui::Color32;
use crate::model::RefKind;

verus! {

#[verifier::external_type_specification]
#[verifier::external_body]
pub struct ExColor32(Color32);

/// What `egui::Color32::from_rgb` gives for a red, green and blue channel:
/// the opaque colour with those channels.
pub uninterp spec fn rgb_color(r: u8, g: u8, b: u8) -> Color32;

/// The opaque colour with the given channels: `egui::Color32::from_rgb`.
#[verifier::external_body]
fn color_from_rgb(r: u8, g: u8, b: u8) -> (c: Color32)
    ensures
        c == rgb_color(r, g, b),
{
    Color32::from_rgb(r, g, b)
}

/// The number of colours the lanes cycle through.
pub const BRANCH_COLOR_COUNT: usize = 10;

/// The red, green and blue channels of palette entry `k`.
pub open spec fn palette_entry(k: int) -> (u8, u8, u8) {
    if k == 0 {
        (0x4e, 0x9a, 0xe0)
    } else if k == 1 {
        (0xe0, 0x74, 0x4e)
    } else if k == 2 {
        (0x5c, 0xc8, 0x6a)
    } else if k == 3 {
        (0xd1, 0x5f, 0xce)
    } else if k == 4 {
        (0xe0, 0xc0, 0x4e)
    } else if k == 5 {
        (0x4e, 0xd1, 0xc5)
    } else if k == 6 {
        (0xe0, 0x4e, 0x6e)
    } else if k == 7 {
        (0x9e, 0xd1, 0x4e)
    } else if k == 8 {
        (0x8e, 0x8e, 0xe0)
    } else {
        (0xe0, 0x9e, 0x4e)
    }
}

fn palette_rgb(k: usize) -> (rgb: (u8, u8, u8))
    requires
        k < BRANCH_COLOR_COUNT,
    ensures
        rgb == palette_entry(k as int),
{
    match k {
        0 => (0x4e, 0x9a, 0xe0),
        1 => (0xe0, 0x74, 0x4e),
        2 => (0x5c, 0xc8, 0x6a),
        3 => (0xd1, 0x5f, 0xce),
        4 => (0xe0, 0xc0, 0x4e),
        5 => (0x4e, 0xd1, 0xc5),
        6 => (0xe0, 0x4e, 0x6e),
        7 => (0x9e, 0xd1, 0x4e),
        8 => (0x8e, 0x8e, 0xe0),
        _ => (0xe0, 0x9e, 0x4e),
    }
}

/// The colour of lane colour `idx`: the palette is used cyclically.
pub fn branch_color(idx: usize) -> (c: Color32)
    ensures
        ({
            let rgb = palette_entry((idx % BRANCH_COLOR_COUNT) as int);
            c == rgb_color(rgb.0, rgb.1, rgb.2)
        }),
{
    let (r, g, b) = palette_rgb(idx % BRANCH_COLOR_COUNT);
    color_from_rgb(r, g, b)
}

/// Colour indices that differ by a multiple of the palette size get the same
/// colour.
pub proof fn branch_color_cycles(idx: int, k: int)
    requires
        idx >= 0,
        k >= 0,
    ensures
        palette_entry((idx + k * BRANCH_COLOR_COUNT) % (BRANCH_COLOR_COUNT as int)) == palette_entry(
            idx % (BRANCH_COLOR_COUNT as int),
        ),
{
    assert((idx + k * 10) % 10 == idx % 10) by (nonlinear_arith)
        requires
            idx >= 0,
            k >= 0,
    ;
}

/// The background and text channels of the badge of a ref of kind `kind`:
/// green for HEAD, gold for tags, dark blue for remotes, blue for branches.
pub open spec fn badge_entry(kind: RefKind) -> ((u8, u8, u8), (u8, u8, u8)) {
    match kind {
        RefKind::Head => ((0x10, 0x60, 0x10), (0x90, 0xff, 0x90)),
        RefKind::Tag => ((0x60, 0x40, 0x00), (0xff, 0xd0, 0x50)),
        RefKind::Remote => ((0x00, 0x30, 0x60), (0x80, 0xb8, 0xff)),
        RefKind::Branch => ((0x10, 0x30, 0x60), (0x80, 0xc8, 0xff)),
    }
}

/// The background and text colours of the badge of a ref of kind `kind`.
pub fn badge_colors(kind: RefKind) -> (colors: (Color32, Color32))
    ensures
        ({
            let (bg, fg) = badge_entry(kind);
            &&& colors.0 == rgb_color(bg.0, bg.1, bg.2)
            &&& colors.1 == rgb_color(fg.0, fg.1, fg.2)
        }),
{
    match kind {
        RefKind::Head => (color_from_rgb(0x10, 0x60, 0x10), color_from_rgb(0x90, 0xff, 0x90)),
        RefKind::Tag => (color_from_rgb(0x60, 0x40, 0x00), color_from_rgb(0xff, 0xd0, 0x50)),
        RefKind::Remote => (color_from_rgb(0x00, 0x30, 0x60), color_from_rgb(0x80, 0xb8, 0xff)),
        RefKind::Branch => (color_from_rgb(0x10, 0x30, 0x60), color_from_rgb(0x80, 0xc8, 0xff)),
    }
}

} // verus!
