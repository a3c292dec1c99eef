//! Drawing on a frame: filled and outlined rectangles, and the shapes and text that
//! embedded-graphics and u8g2-fonts rasterise.
use vstd::prelude::*;
use crate::frame::{on_screen, raster_lit, Frame, H, LEN, PIXEL_BYTES, W};
use embedded_graphics::framebuffer::Framebuffer;
use embedded_graphics::pixelcolor::raw::{BigEndian, RawU1};
use embedded_graphics::pixelcolor::BinaryColor;
use embedded_graphics::pixelcolor::BinaryColor::On;
use embedded_graphics::prelude::{Point, Primitive, Size};
use embedded_graphics::primitives::{Circle, Line, PrimitiveStyle};
use embedded_graphics::Drawable;
use u8g2_fonts::types::{FontColor, HorizontalAlignment, VerticalPosition};
use u8g2_fonts::types::VerticalPosition::{Baseline, Top};
use u8g2_fonts::fonts::{
    u8g2_font_5x7_tf, u8g2_font_logisoso16_tn, u8g2_font_logisoso22_tn, u8g2_font_logisoso32_tn,
    u8g2_font_open_iconic_weather_2x_t, u8g2_font_open_iconic_weather_4x_t,
};
use u8g2_fonts::FontRenderer;

verus! {

/// How far from the origin, each way, a point handed to the text and shape renderers may
/// lie. They work in 32-bit arithmetic and overflow far beyond it.
pub const REACH: i32 = 0x10_0000;

/// The most characters drawn in one call.
pub const MAX_TEXT: usize = 0x1_0000;

/// How far apart the ends of a line may lie along either axis.
pub const MAX_SPAN: i32 = 0x2000;

/// The largest diameter of a circle drawn.
pub const MAX_DIAMETER: u32 = 0x1000;

/// Whether a point is within reach of the renderers.
pub open spec fn within_reach(x: int, y: int) -> bool {
    -REACH <= x <= REACH && -REACH <= y <= REACH
}

/// Whether a line between two points can be drawn without overflow: both ends within
/// reach and no more than `MAX_SPAN` apart along either axis.
pub open spec fn line_fits(x0: int, y0: int, x1: int, y1: int) -> bool {
    &&& within_reach(x0, y0)
    &&& within_reach(x1, y1)
    &&& -MAX_SPAN <= x1 - x0 <= MAX_SPAN
    &&& -MAX_SPAN <= y1 - y0 <= MAX_SPAN
}

/// A raster lights nothing in the last column or the last row, which the burn-in shift
/// pushes out.
pub open spec fn clear_of_margin(r: Seq<u8>) -> bool {
    &&& forall|y: int| 0 <= y < H ==> !#[trigger] raster_lit(r, W - 1, y)
    &&& forall|x: int| 0 <= x < W ==> !#[trigger] raster_lit(r, x, H - 1)
}

/// A bare one-bit raster of the screen, in the frame's packing.
type Canvas = Framebuffer<BinaryColor, RawU1, BigEndian, 128, 40, 640>;

/// Fonts that text is written in.
pub enum TextFont {
    /// logisoso 32 px digits: the clock.
    Big,
    /// logisoso 16 px digits: the date.
    Mid,
    /// 5x7 text; characters it lacks are left out.
    Small,
}

/// Fonts that single glyphs and the big temperature are drawn from, each with the row its
/// anchor point gives.
pub enum GlyphFont {
    /// logisoso 22 px digits, anchored at the baseline: the temperature on the weather page.
    Temp,
    /// open_iconic_weather at 16 px, anchored at the top.
    Icon,
    /// open_iconic_weather at 32 px, anchored at the top.
    IconBig,
}

/// Where a line of text stands relative to its anchor point.
pub enum Align {
    Left,
    Center,
    Right,
}

/// The pixels that u8g2-fonts' `FontRenderer::render_aligned` lights for `text` in
/// `font`, anchored at the baseline at `(x, baseline)`, as a bare 128x40 raster.
pub uninterp spec fn aligned_text_raster(
    font: TextFont,
    text: Seq<char>,
    x: int,
    baseline: int,
    align: Align,
) -> Seq<u8>;

/// The pixels that u8g2-fonts' `FontRenderer::render` lights for `text` in `font`
/// anchored at `(x, y)`, as a bare 128x40 raster, with the bounding box
/// (left, top, width, height) of what it drew, if it drew anything.
pub uninterp spec fn glyphs_raster(font: GlyphFont, text: Seq<char>, x: int, y: int) -> (
    Seq<u8>,
    Option<(i32, i32, u32, u32)>,
);

/// The pixels that embedded-graphics lights for a one pixel wide line between two
/// points, as a bare 128x40 raster.
pub uninterp spec fn line_raster(x0: int, y0: int, x1: int, y1: int) -> Seq<u8>;

/// The pixels that embedded-graphics lights for the one pixel wide outline of a circle
/// with the given top left corner and diameter, as a bare 128x40 raster.
pub uninterp spec fn circle_raster(x: int, y: int, diameter: int) -> Seq<u8>;

/// Renders text with u8g2-fonts' `FontRenderer::render_aligned` in the lit colour on a
/// transparent background into an empty 128x40 one-bit framebuffer and returns its bytes.
/// The contract names the raster; it claims no more of it than its size. The renderer adds
/// each glyph's advance (at most 127 pixels) and offsets to the position in 32-bit
/// arithmetic; the `requires` keeps the position and the text's length where that sum
/// cannot overflow.
#[verifier::external_body]
fn render_aligned(font: TextFont, text: &[char], x: i32, baseline: i32, align: Align) -> (r: Vec<u8>)
    requires
        within_reach(x as int, baseline as int),
        text@.len() <= MAX_TEXT,
    ensures
        r@ == aligned_text_raster(font, text@, x as int, baseline as int, align),
        r@.len() == PIXEL_BYTES,
{
    let renderer = match font {
        TextFont::Big => FontRenderer::new::<u8g2_font_logisoso32_tn>(),
        TextFont::Mid => FontRenderer::new::<u8g2_font_logisoso16_tn>(),
        TextFont::Small => FontRenderer::new::<u8g2_font_5x7_tf>().with_ignore_unknown_chars(true),
    };
    let align = match align {
        Align::Left => HorizontalAlignment::Left,
        Align::Center => HorizontalAlignment::Center,
        Align::Right => HorizontalAlignment::Right,
    };
    let mut fb = Canvas::new();
    let text: String = text.iter().collect();
    let _ = renderer.render_aligned(text.as_str(), Point::new(x, baseline), VerticalPosition::Baseline, align, FontColor::Transparent(On), &mut fb);
    fb.data().to_vec()
}

/// Renders text with u8g2-fonts' `FontRenderer::render` in the lit colour on a
/// transparent background into an empty 128x40 one-bit framebuffer and returns its bytes
/// and the bounding box of what was drawn. The contract names both; it claims no more of
/// them than the raster's size. As for `render_aligned`, the `requires` keeps the 32-bit
/// sums of position, advances and offsets from overflowing.
#[verifier::external_body]
fn render_glyphs(font: GlyphFont, text: &[char], x: i32, y: i32) -> (r: (Vec<u8>, Option<(i32, i32, u32, u32)>))
    requires
        within_reach(x as int, y as int),
        text@.len() <= MAX_TEXT,
    ensures
        (r.0@, r.1) == glyphs_raster(font, text@, x as int, y as int),
        r.0@.len() == PIXEL_BYTES,
{
    let (renderer, pos) = match font {
        GlyphFont::Temp => (FontRenderer::new::<u8g2_font_logisoso22_tn>(), Baseline),
        GlyphFont::Icon => (FontRenderer::new::<u8g2_font_open_iconic_weather_2x_t>(), Top),
        GlyphFont::IconBig => (FontRenderer::new::<u8g2_font_open_iconic_weather_4x_t>(), Top),
    };
    let mut fb = Canvas::new();
    let text: String = text.iter().collect();
    let dims = renderer.render(&*text, Point::new(x, y), pos, FontColor::Transparent(On), &mut fb);
    let bb = dims.ok().and_then(|d| d.bounding_box);
    (fb.data().to_vec(), bb.map(|b| (b.top_left.x, b.top_left.y, b.size.width, b.size.height)))
}

/// Draws an embedded-graphics `Line` between two points with a one pixel stroke of the lit
/// colour into an empty 128x40 one-bit framebuffer and returns its bytes. The contract
/// names the raster; it claims no more of it than its size. embedded-graphics takes the
/// difference of the ends and squares the accumulated stroke width against four times the
/// squared length in 32-bit arithmetic; the `requires` keeps both from overflowing.
#[verifier::external_body]
fn draw_line(x0: i32, y0: i32, x1: i32, y1: i32) -> (r: Vec<u8>)
    requires
        line_fits(x0 as int, y0 as int, x1 as int, y1 as int),
    ensures
        r@ == line_raster(x0 as int, y0 as int, x1 as int, y1 as int),
        r@.len() == PIXEL_BYTES,
{
    let mut fb = Canvas::new();
    let line = Line::new(Point::new(x0, y0), Point::new(x1, y1));
    let _ = line.into_styled(PrimitiveStyle::with_stroke(On, 1)).draw(&mut fb);
    fb.data().to_vec()
}

/// Draws an embedded-graphics `Circle` from its top left corner and diameter with a one
/// pixel stroke of the lit colour into an empty 128x40 one-bit framebuffer and returns its
/// bytes. The contract names the raster; it claims no more of it than its size.
/// embedded-graphics doubles the corner and squares distances within the circle's box in
/// 32-bit arithmetic; the `requires` keeps those from overflowing.
#[verifier::external_body]
fn draw_circle(x: i32, y: i32, diameter: u32) -> (r: Vec<u8>)
    requires
        within_reach(x as int, y as int),
        diameter <= MAX_DIAMETER,
    ensures
        r@ == circle_raster(x as int, y as int, diameter as int),
        r@.len() == PIXEL_BYTES,
{
    let mut fb = Canvas::new();
    let circle = Circle::new(Point::new(x, y), diameter);
    let _ = circle.into_styled(PrimitiveStyle::with_stroke(On, 1)).draw(&mut fb);
    fb.data().to_vec()
}

/// Whether `(x, y)` lies in the rectangle with top left `(rx, ry)`, `w` wide and `h` high.
pub open spec fn in_rect(x: int, y: int, rx: int, ry: int, w: int, h: int) -> bool {
    rx <= x < rx + w && ry <= y < ry + h
}

/// Whether `(x, y)` lies on the one pixel wide border inside that rectangle.
pub open spec fn on_border(x: int, y: int, rx: int, ry: int, w: int, h: int) -> bool {
    in_rect(x, y, rx, ry, w, h) && (x == rx || x == rx + w - 1 || y == ry || y == ry + h - 1)
}

/// Writes `text` in `font` with its baseline at `(x, baseline)`.
pub fn text(f: &mut Frame, font: TextFont, s: &[char], x: i32, baseline: i32, align: Align)
    requires
        within_reach(x as int, baseline as int),
        s@.len() <= MAX_TEXT,
    ensures
        final(f).framed() == old(f).framed(),
        forall|a: int, b: int|
            on_screen(a, b) ==> #[trigger] final(f).lit(a, b) == (old(f).lit(a, b) || raster_lit(
                aligned_text_raster(font, s@, x as int, baseline as int, align),
                a,
                b,
            )),
{
    let r = render_aligned(font, s, x, baseline, align);
    f.overlay(r.as_slice());
}

/// Draws glyphs in `font` anchored at `(x, y)`; returns the bounding box of what was drawn.
pub fn glyphs(f: &mut Frame, font: GlyphFont, s: &[char], x: i32, y: i32) -> (bb:
    Option<(i32, i32, u32, u32)>)
    requires
        within_reach(x as int, y as int),
        s@.len() <= MAX_TEXT,
    ensures
        final(f).framed() == old(f).framed(),
        bb == glyphs_raster(font, s@, x as int, y as int).1,
        forall|a: int, b: int|
            on_screen(a, b) ==> #[trigger] final(f).lit(a, b) == (old(f).lit(a, b) || raster_lit(
                glyphs_raster(font, s@, x as int, y as int).0,
                a,
                b,
            )),
{
    let (r, bb) = render_glyphs(font, s, x, y);
    f.overlay(r.as_slice());
    bb
}

/// Draws a one pixel wide line between two points.
pub fn line(f: &mut Frame, x0: i32, y0: i32, x1: i32, y1: i32)
    requires
        line_fits(x0 as int, y0 as int, x1 as int, y1 as int),
    ensures
        final(f).framed() == old(f).framed(),
        forall|a: int, b: int|
            on_screen(a, b) ==> #[trigger] final(f).lit(a, b) == (old(f).lit(a, b) || raster_lit(
                line_raster(x0 as int, y0 as int, x1 as int, y1 as int),
                a,
                b,
            )),
{
    let r = draw_line(x0, y0, x1, y1);
    f.overlay(r.as_slice());
}

/// Draws the one pixel wide outline of a circle.
pub fn circle(f: &mut Frame, x: i32, y: i32, diameter: u32)
    requires
        within_reach(x as int, y as int),
        diameter <= MAX_DIAMETER,
    ensures
        final(f).framed() == old(f).framed(),
        forall|a: int, b: int|
            on_screen(a, b) ==> #[trigger] final(f).lit(a, b) == (old(f).lit(a, b) || raster_lit(
                circle_raster(x as int, y as int, diameter as int),
                a,
                b,
            )),
{
    let r = draw_circle(x, y, diameter);
    f.overlay(r.as_slice());
}

/// Fills a rectangle, as embedded-graphics fills a `Rectangle` styled with a lit fill:
/// every pixel of the screen inside it is lit; the rest is left as it was.
pub fn fill_rect(f: &mut Frame, x: i32, y: i32, w: u32, h: u32)
    ensures
        final(f).bytes()[0] == old(f).bytes()[0],
        final(f).bytes()[LEN - 1] == old(f).bytes()[LEN - 1],
        forall|a: int, b: int|
            on_screen(a, b) ==> #[trigger] final(f).lit(a, b) == (old(f).lit(a, b) || in_rect(
                a,
                b,
                x as int,
                y as int,
                w as int,
                h as int,
            )),
{
    let ghost o = *f;
    let x0: i64 = if x < 0 {
        0
    } else {
        x as i64
    };
    let x1: i64 = if x as i64 + w as i64 > W as i64 {
        W as i64
    } else {
        x as i64 + w as i64
    };
    let y0: i64 = if y < 0 {
        0
    } else {
        y as i64
    };
    let y1: i64 = if y as i64 + h as i64 > H as i64 {
        H as i64
    } else {
        y as i64 + h as i64
    };
    let mut r: i64 = y0;
    while r < y1
        invariant
            0 <= y0 <= r,
            y0 == (if y < 0 { 0 } else { y as int }),
            y1 <= H,
            y1 == (if y + h > H { H as int } else { y + h }),
            0 <= x0,
            x0 == (if x < 0 { 0 } else { x as int }),
            x1 <= W,
            x1 == (if x + w > W { W as int } else { x + w }),
            f.bytes()[0] == o.bytes()[0],
            f.bytes()[LEN - 1] == o.bytes()[LEN - 1],
            forall|a: int, b: int|
                on_screen(a, b) ==> #[trigger] f.lit(a, b) == (o.lit(a, b) || (in_rect(
                    a,
                    b,
                    x as int,
                    y as int,
                    w as int,
                    h as int,
                ) && b < r)),
        decreases y1 - r,
    {
        let mut c: i64 = x0;
        while c < x1
            invariant
                0 <= y0 <= r < y1 <= H,
                y0 == (if y < 0 { 0 } else { y as int }),
                y1 == (if y + h > H { H as int } else { y + h }),
                0 <= x0 <= c,
                x0 == (if x < 0 { 0 } else { x as int }),
                x1 <= W,
                x1 == (if x + w > W { W as int } else { x + w }),
                f.bytes()[0] == o.bytes()[0],
                f.bytes()[LEN - 1] == o.bytes()[LEN - 1],
                forall|a: int, b: int|
                    on_screen(a, b) ==> #[trigger] f.lit(a, b) == (o.lit(a, b) || (in_rect(
                        a,
                        b,
                        x as int,
                        y as int,
                        w as int,
                        h as int,
                    ) && (b < r || (b == r && a < c)))),
            decreases x1 - c,
        {
            f.set(c as usize, r as usize, true);
            c = c + 1;
        }
        r = r + 1;
    }
}

/// Outlines a rectangle, as embedded-graphics draws a `Rectangle` styled with a lit one
/// pixel stroke and no fill: the pixels on its inner border are lit (none for an empty
/// rectangle).
pub fn stroke_rect(f: &mut Frame, x: i32, y: i32, w: u32, h: u32)
    requires
        x + w <= i32::MAX + 1,
        y + h <= i32::MAX + 1,
    ensures
        final(f).bytes()[0] == old(f).bytes()[0],
        final(f).bytes()[LEN - 1] == old(f).bytes()[LEN - 1],
        forall|a: int, b: int|
            on_screen(a, b) ==> #[trigger] final(f).lit(a, b) == (old(f).lit(a, b) || on_border(
                a,
                b,
                x as int,
                y as int,
                w as int,
                h as int,
            )),
{
    if w == 0 || h == 0 {
        return;
    }
    fill_rect(f, x, y, w, 1);
    fill_rect(f, x, (y as i64 + h as i64 - 1) as i32, w, 1);
    fill_rect(f, x, y, 1, h);
    fill_rect(f, (x as i64 + w as i64 - 1) as i32, y, 1, h);
}

} // verus!
