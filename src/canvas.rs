//! The image, font and drawing primitive that captions are drawn with.
use vstd::prelude::*;

verus! {

/// A decoded image.
#[verifier::external_type_specification]
#[verifier::external_body]
pub struct ExDynamicImage(image::DynamicImage);

/// A loaded font face.
#[verifier::external_type_specification]
#[verifier::external_body]
pub struct ExFont<'a>(rusttype::Font<'a>);

/// The horizontal and vertical size at which glyphs are drawn.
#[verifier::external_type_specification]
#[verifier::external_body]
pub struct ExScale(rusttype::Scale);

/// The largest coordinate at which a run of text is placed.
pub const COORD_LIMIT: u32 = 0x4000_0000;

/// Font units that one character can move a run along, at most: its advance
/// (a `u16`) and its kerning (an `i16`).
pub const RUN_UNIT: u64 = 0x2_0000;

/// The farthest, in pixels, that a run may reach from where it is placed.
/// Together with `COORD_LIMIT` this keeps every glyph offset that the drawing
/// primitive adds inside `i32`.
pub const RUN_LIMIT: u64 = 0x3fff_fffe;

/// One drawing of a run of text: colour as red, green, blue and alpha, the top
/// left corner, and the text.
pub type Draw = (Seq<u8>, int, int, Seq<char>);

/// Relies on rusttype::Font::v_metrics_unscaled: the ascent is the font's
/// `i16` ascender.
#[verifier::external_body]
fn font_ascent(font: &rusttype::Font) -> (r: i32)
    ensures
        -0x8000 <= r <= 0x7fff,
{
    font.v_metrics_unscaled().ascent as i32
}

/// Relies on rusttype::Font::v_metrics_unscaled: the descent is the font's
/// `i16` descender.
#[verifier::external_body]
fn font_descent(font: &rusttype::Font) -> (r: i32)
    ensures
        -0x8000 <= r <= 0x7fff,
{
    font.v_metrics_unscaled().descent as i32
}

/// Relies on f32::abs: the size of the horizontal scale, in whole pixels
/// rounded down and saturated to `u32`.
#[verifier::external_body]
fn scale_x_magnitude(scale: &rusttype::Scale) -> u32 {
    scale.x.abs() as u32
}

/// Relies on f32::abs: the size of the vertical scale, in whole pixels
/// rounded down and saturated to `u32`.
#[verifier::external_body]
fn scale_y_magnitude(scale: &rusttype::Scale) -> u32 {
    scale.y.abs() as u32
}

/// A font at a scale, with bounds read from both: the font's height in font
/// units (ascent less descent), and a whole number of pixels larger than the
/// size of either scale component. rusttype turns font units into pixels by
/// multiplying with the scale over that height.
pub struct Lettering<'a> {
    font: &'a rusttype::Font<'a>,
    scale: rusttype::Scale,
    em: u32,
    size: u32,
}

impl<'a> Lettering<'a> {
    /// The font's height in font units.
    pub closed spec fn em(&self) -> nat {
        self.em as nat
    }

    /// A bound on the scale in pixels.
    pub closed spec fn size(&self) -> nat {
        self.size as nat
    }

    /// A run of `n` characters reaches at most `(n + 1) * RUN_UNIT * size / em`
    /// pixels from where it is placed; it fits when that is within `RUN_LIMIT`.
    pub open spec fn fits(&self, n: nat) -> bool {
        &&& self.em() >= 1
        &&& (n + 1) * RUN_UNIT * self.size() <= self.em() * RUN_LIMIT
    }

    /// `font` at `scale`; none where the font's height is not positive or the
    /// scale is too large to bound.
    pub fn new(font: &'a rusttype::Font<'a>, scale: rusttype::Scale) -> (r: Option<Lettering<'a>>)
        ensures
            r matches Some(l) ==> l.em() >= 1 && l.size() < u32::MAX,
    {
        let em = font_ascent(font) - font_descent(font);
        let sx = scale_x_magnitude(&scale);
        let sy = scale_y_magnitude(&scale);
        let whole = if sx > sy { sx } else { sy };
        if em < 1 || whole >= u32::MAX - 1 {
            None
        } else {
            Some(Lettering { font, scale, em: em as u32, size: whole + 1 })
        }
    }

    /// Whether a run of `text` fits.
    pub fn fits_text(&self, text: &str) -> (r: bool)
        ensures
            r == self.fits(text@.len()),
    {
        let n = text.unicode_len();
        let a: u128 = n as u128 + 1;
        proof {
            assert(a * RUN_UNIT <= 0x1_0000_0000_0000_0000 * RUN_UNIT) by (nonlinear_arith)
                requires a <= 0x1_0000_0000_0000_0000;
            assert(a * RUN_UNIT * self.size <= 0x1_0000_0000_0000_0000 * RUN_UNIT * 0x1_0000_0000)
                by (nonlinear_arith)
                requires a * RUN_UNIT <= 0x1_0000_0000_0000_0000 * RUN_UNIT, self.size < 0x1_0000_0000;
            assert(self.em * RUN_LIMIT <= 0x1_0000_0000 * RUN_LIMIT) by (nonlinear_arith)
                requires self.em < 0x1_0000_0000;
        }
        let b: u128 = a * (RUN_UNIT as u128);
        let reach: u128 = b * (self.size as u128);
        self.em >= 1 && reach <= (self.em as u128) * (RUN_LIMIT as u128)
    }
}

/// An image being drawn on, with the record of the text runs drawn so far.
pub struct Canvas {
    image: image::DynamicImage,
    draws: Ghost<Seq<Draw>>,
}

impl Canvas {
    /// The image.
    pub closed spec fn image(&self) -> image::DynamicImage {
        self.image
    }

    /// The runs drawn on the image, in order.
    pub closed spec fn draws(&self) -> Seq<Draw> {
        self.draws@
    }

    /// A canvas on `image`, with nothing drawn yet.
    pub fn new(image: image::DynamicImage) -> (r: Canvas)
        ensures
            r.image() == image,
            r.draws() == Seq::<Draw>::empty(),
    {
        Canvas { image, draws: Ghost(Seq::empty()) }
    }

    /// The image, with all the drawing done on it.
    pub fn into_image(self) -> (r: image::DynamicImage)
        ensures
            r == self.image(),
    {
        self.image
    }

    /// Relies on imageproc::drawing::draw_text_mut: draws `text` in the colour
    /// `rgba` with its top left corner at (`x`, `y`), writing only the pixels
    /// that fall inside the image. Glyph offsets are added to `x` and `y` as
    /// `i32`; the bounds on the place and on the run keep those sums in range.
    #[verifier::external_body]
    pub(crate) fn draw_text(&mut self, rgba: [u8; 4], x: i32, y: i32, lettering: &Lettering, text: &str)
        requires
            0 <= x <= COORD_LIMIT,
            0 <= y <= COORD_LIMIT,
            lettering.fits(text@.len()),
        ensures
            final(self).draws() == old(self).draws().push((rgba@, x as int, y as int, text@)),
    {
        imageproc::drawing::draw_text_mut(
            &mut self.image,
            image::Rgba(rgba),
            x,
            y,
            lettering.scale,
            lettering.font,
            text,
        )
    }
}

} // verus!
