//! Text on the linear framebuffer: the cursor of 8x16 glyphs on 18-pixel
//! lines, where a pixel lies in memory, and how a colour is laid out.
//! Writing the pixels is left to the caller.
use vstd::prelude::*;
use crate::boot::Framebuffer;

verus! {

pub const GLYPH_W: usize = 8;
pub const GLYPH_H: usize = 16;
/// Vertical distance between text lines.
pub const LINE_ADVANCE: usize = 18;
/// Left and top margin of the text.
pub const MARGIN: usize = 8;

pub struct FramebufferWriter {
    pub fb: Framebuffer,
    pub cursor_x: usize,
    pub cursor_y: usize,
    pub fg: u32,
    pub bg: u32,
}

/// The byte offset of pixel (x, y): four bytes per pixel, `stride` pixels
/// per row, each product and sum saturating; `None` when its four bytes do
/// not all lie below `size`.
pub open spec fn spec_pixel_offset(fb: Framebuffer, x: usize, y: usize) -> Option<usize> {
    let idx = sat_add(sat_mul(y as int, fb.stride as int), x as int);
    let off = sat_mul(idx, 4);
    if off + 3 >= fb.size { None } else { Some(off as usize) }
}

pub open spec fn sat_mul(a: int, b: int) -> int {
    if a * b > usize::MAX { usize::MAX as int } else { a * b }
}

pub open spec fn sat_add(a: int, b: int) -> int {
    if a + b > usize::MAX { usize::MAX as int } else { a + b }
}

fn mul_sat(a: usize, b: usize) -> (r: usize)
    ensures
        r == sat_mul(a as int, b as int),
{
    match a.checked_mul(b) {
        Some(v) => v,
        None => usize::MAX,
    }
}

pub fn pixel_offset(fb: &Framebuffer, x: usize, y: usize) -> (r: Option<usize>)
    ensures
        r == spec_pixel_offset(*fb, x, y),
{
    let idx = mul_sat(y, fb.stride as usize).saturating_add(x);
    let off = mul_sat(idx, 4);
    if off as u128 + 3 >= fb.size as u128 {
        None
    } else {
        Some(off)
    }
}

/// The four bytes of a 0x00RRGGBB colour in memory: blue first in format 1,
/// red first otherwise, then a zero byte.
pub open spec fn spec_pixel_bytes(format: u32, rgb: u32) -> (u8, u8, u8, u8) {
    let r = ((rgb >> 16) & 0xFF) as u8;
    let g = ((rgb >> 8) & 0xFF) as u8;
    let b = (rgb & 0xFF) as u8;
    if format == 1 { (b, g, r, 0) } else { (r, g, b, 0) }
}

pub fn pixel_bytes(format: u32, rgb: u32) -> (p: (u8, u8, u8, u8))
    ensures
        p == spec_pixel_bytes(format, rgb),
{
    let r = ((rgb >> 16) & 0xFF) as u8;
    let g = ((rgb >> 8) & 0xFF) as u8;
    let b = (rgb & 0xFF) as u8;
    if format == 1 { (b, g, r, 0) } else { (r, g, b, 0) }
}

/// The colour of column `col` of a glyph row: foreground where the row's
/// bit `7 - col` is set.
pub open spec fn spec_glyph_color(bits: u8, col: u32, fg: u32, bg: u32) -> u32 {
    if bits & (1u8 << (7 - col) as u8) != 0 { fg } else { bg }
}

pub fn glyph_color(bits: u8, col: u32, fg: u32, bg: u32) -> (c: u32)
    requires
        col < 8,
    ensures
        c == spec_glyph_color(bits, col, fg, bg),
{
    let mask: u8 = 1u8 << ((7 - col) as u8);
    if bits & mask != 0 { fg } else { bg }
}

impl FramebufferWriter {
    /// A writer at the top-left margin, white on black.
    pub fn new(fb: Framebuffer) -> (w: Self)
        ensures
            w.fb == fb,
            w.cursor_x == MARGIN,
            w.cursor_y == MARGIN,
            w.fg == 0x00FFFFFF,
            w.bg == 0,
    {
        FramebufferWriter { fb, cursor_x: 8, cursor_y: 8, fg: 0x00FFFFFF, bg: 0x00000000 }
    }

    /// Moves to the start of the next line.
    pub fn new_line(&mut self)
        ensures
            final(self).cursor_x == MARGIN,
            final(self).cursor_y == sat_add(old(self).cursor_y as int, LINE_ADVANCE as int),
            final(self).fb == old(self).fb,
            final(self).fg == old(self).fg,
            final(self).bg == old(self).bg,
    {
        self.cursor_x = 8;
        self.cursor_y = self.cursor_y.saturating_add(18);
    }

    /// Where the next glyph is drawn, moving to a new line first when it
    /// would not fit in the row; `None`, with the cursor left there, when
    /// the screen has no room below.
    pub fn place_glyph(&mut self) -> (r: Option<(usize, usize)>)
        ensures
            ({
                let wraps = old(self).cursor_x + GLYPH_W >= old(self).fb.width;
                let x = if wraps { MARGIN as int } else { old(self).cursor_x as int };
                let y = if wraps { sat_add(old(self).cursor_y as int, LINE_ADVANCE as int) } else { old(self).cursor_y as int };
                &&& final(self).fb == old(self).fb
                &&& final(self).fg == old(self).fg
                &&& final(self).bg == old(self).bg
                &&& final(self).cursor_y == y
                &&& if y + GLYPH_H >= old(self).fb.height {
                    r is None && final(self).cursor_x == x
                } else {
                    r == Some((x as usize, y as usize)) && final(self).cursor_x == x + GLYPH_W
                }
            }),
    {
        if self.cursor_x as u128 + 8 >= self.fb.width as u128 {
            self.new_line();
        }
        if self.cursor_y as u128 + 16 >= self.fb.height as u128 {
            return None;
        }
        let p = (self.cursor_x, self.cursor_y);
        self.cursor_x = self.cursor_x + 8;
        Some(p)
    }
}

} // verus!
