//! Where a caption's lines go on the image, and the passes that draw each
//! line: four dark ones around it for the outline, then the light fill.
use vstd::prelude::*;
use crate::canvas::{COORD_LIMIT, Canvas, Draw, Lettering};

verus! {

/// How far the caption sits inside the requested position, and how far each
/// outline pass is shifted from the fill.
pub const MARGIN: u32 = 2;

/// A pixel position.
pub struct Point {
    pub x: u32,
    pub y: u32,
}

/// The colour of a drawing pass.
#[derive(Clone, Copy, Debug, PartialEq, Eq, Structural)]
pub enum Ink {
    /// Opaque black, for the outline passes.
    Outline,
    /// Opaque white, for the fill pass.
    Fill,
}

impl Ink {
    pub open spec fn spec_rgba(self) -> Seq<u8> {
        match self {
            Ink::Outline => seq![0u8, 0u8, 0u8, 255u8],
            Ink::Fill => seq![255u8, 255u8, 255u8, 255u8],
        }
    }

    /// The colour as red, green, blue and alpha.
    pub fn rgba(&self) -> (r: [u8; 4])
        ensures
            r@ == self.spec_rgba(),
    {
        match self {
            Ink::Outline => [0u8, 0u8, 0u8, 255u8],
            Ink::Fill => [255u8, 255u8, 255u8, 255u8],
        }
    }
}

/// One drawing of line `line` of a caption, at (`x`, `y`), in `ink`.
#[derive(Clone, Copy, Debug, PartialEq, Eq, Structural)]
pub struct Stroke {
    pub x: i32,
    pub y: i32,
    pub ink: Ink,
    pub line: usize,
}

/// A caption to draw: its text, the top left corner of its first line, and
/// its size, which is also the height of a line in pixels.
pub struct Meme<'a> {
    pub text: &'a str,
    pub position: Point,
    pub size: u32,
}

/// Pass `pass` (0 to 4) of a line whose fill has its top left at (`x`, `y`):
/// shifted left, right, up and down in the outline ink, then in place in the
/// fill ink.
pub open spec fn pass_stroke(x: int, y: int, pass: int) -> (int, int, Ink) {
    if pass == 0 {
        (x - MARGIN, y, Ink::Outline)
    } else if pass == 1 {
        (x + MARGIN, y, Ink::Outline)
    } else if pass == 2 {
        (x, y - MARGIN, Ink::Outline)
    } else if pass == 3 {
        (x, y + MARGIN, Ink::Outline)
    } else {
        (x, y, Ink::Fill)
    }
}

impl<'a> Meme<'a> {
    /// The top of line `j`: one line height below the line before it.
    pub open spec fn line_top(&self, j: int) -> int {
        self.position.y + j * self.size
    }

    /// Line `j` is drawn: every pass of it is placed at coordinates from 0 to
    /// `COORD_LIMIT`. Lines further down are left out.
    pub open spec fn line_drawn(&self, j: int) -> bool {
        &&& MARGIN <= self.position.x
        &&& MARGIN <= self.position.y
        &&& self.position.x + MARGIN <= COORD_LIMIT
        &&& self.line_top(j) + MARGIN <= COORD_LIMIT
    }

    /// Stroke `i` of the caption: pass `i % 5` of line `i / 5`.
    pub open spec fn stroke_is(&self, i: int, s: Stroke) -> bool {
        let (x, y, ink) = pass_stroke(self.position.x as int, self.line_top(i / 5), i % 5);
        &&& s.x == x
        &&& s.y == y
        &&& s.ink == ink
        &&& s.line == i / 5
    }

    /// A caption of `text` for the position (`x`, `y`), moved in by the margin
    /// so that the outline is not cut at the image edge, at size `s`.
    pub fn new(text: &'a str, x: u32, y: u32, s: u32) -> (r: Self)
        requires
            x + MARGIN <= u32::MAX,
            y + MARGIN <= u32::MAX,
        ensures
            r.text == text,
            r.position.x == x + MARGIN,
            r.position.y == y + MARGIN,
            r.size == s,
    {
        Meme { text, position: Point { x: x + MARGIN, y: y + MARGIN }, size: s }
    }

    /// The strokes that draw `line_count` lines, in drawing order: five per
    /// line, for every line that can be drawn.
    pub fn strokes(&self, line_count: usize) -> (r: Vec<Stroke>)
        ensures
            r.len() % 5 == 0,
            r.len() / 5 <= line_count,
            forall|j: int| 0 <= j < line_count ==> (self.line_drawn(j) <==> j < r.len() / 5),
            forall|i: int| 0 <= i < r.len() ==> self.stroke_is(i, #[trigger] r[i]),
    {
        let mut out: Vec<Stroke> = Vec::new();
        if self.position.x < MARGIN || self.position.y < MARGIN || self.position.x > COORD_LIMIT - MARGIN {
            return out;
        }
        let x = self.position.x as i32;
        let mut top: u64 = self.position.y as u64;
        let mut j: usize = 0;
        while j < line_count && top + MARGIN as u64 <= COORD_LIMIT as u64
            invariant
                MARGIN <= self.position.x,
                MARGIN <= self.position.y,
                self.position.x + MARGIN <= COORD_LIMIT,
                x == self.position.x,
                j <= line_count,
                top == self.line_top(j as int),
                top <= COORD_LIMIT + u32::MAX,
                out.len() == 5 * j,
                forall|jj: int| 0 <= jj < j ==> self.line_drawn(jj),
                forall|i: int| 0 <= i < out.len() ==> self.stroke_is(i, #[trigger] out[i]),
            decreases line_count - j,
        {
            let y = top as i32;
            let ghost before = out@;
            out.push(Stroke { x: x - 2, y, ink: Ink::Outline, line: j });
            out.push(Stroke { x: x + 2, y, ink: Ink::Outline, line: j });
            out.push(Stroke { x, y: y - 2, ink: Ink::Outline, line: j });
            out.push(Stroke { x, y: y + 2, ink: Ink::Outline, line: j });
            out.push(Stroke { x, y, ink: Ink::Fill, line: j });
            proof {
                assert forall|i: int| 0 <= i < out.len() implies self.stroke_is(i, #[trigger] out[i]) by {
                    if i < 5 * j {
                        assert(out[i] == before[i]);
                    } else {
                        assert(i / 5 == j) by (nonlinear_arith)
                            requires 5 * j <= i < 5 * j + 5;
                        assert(i % 5 == i - 5 * j) by (nonlinear_arith)
                            requires 5 * j <= i < 5 * j + 5;
                    }
                }
                assert(self.line_top(j + 1) == self.line_top(j as int) + self.size) by (nonlinear_arith);
            }
            j = j + 1;
            top = top + self.size as u64;
        }
        proof {
            assert forall|jj: int| j <= jj < line_count implies !self.line_drawn(jj) by {
                if j < line_count {
                    assert(self.line_top(jj) >= self.line_top(j as int)) by (nonlinear_arith)
                        requires jj >= j, self.size >= 0;
                }
            }
            assert(out.len() / 5 == j) by (nonlinear_arith)
                requires out.len() == 5 * j;
        }
        out
    }

    /// Line `j` of `lines` is shown: it lies in the coordinate range and its
    /// run of text fits.
    pub open spec fn line_shown(&self, j: int, lettering: &Lettering, lines: Seq<String>) -> bool {
        &&& self.line_drawn(j)
        &&& lettering.fits(lines[j]@.len())
    }

    /// The five draws of line `j`: its passes in order, in their inks, with
    /// the line's text.
    pub open spec fn line_draws(&self, j: int, lines: Seq<String>) -> Seq<Draw> {
        Seq::new(5, |p: int| self.draw_of(j, p, lines[j]@))
    }

    /// The draws that show the first `n` of `lines`: those of each shown line,
    /// in order; a line that is not shown adds none.
    pub open spec fn planned(&self, lettering: &Lettering, lines: Seq<String>, n: int) -> Seq<Draw>
        decreases n,
    {
        if n <= 0 {
            Seq::empty()
        } else if self.line_shown(n - 1, lettering, lines) {
            self.planned(lettering, lines, n - 1) + self.line_draws(n - 1, lines)
        } else {
            self.planned(lettering, lines, n - 1)
        }
    }

    fn draw_line(&self, canvas: &mut Canvas, lettering: &Lettering, strokes: &Vec<Stroke>, j: usize, text: &str)
        requires
            5 * j + 5 <= strokes.len(),
            forall|k: int| 0 <= k < strokes.len() ==> self.stroke_is(k, #[trigger] strokes[k]),
            self.line_drawn(j as int),
            lettering.fits(text@.len()),
        ensures
            final(canvas).draws() == old(canvas).draws() + Seq::new(
                5,
                |p: int| self.draw_of(j as int, p, text@),
            ),
    {
        let ghost start = canvas.draws();
        proof {
            assert(self.line_top(j as int) >= self.position.y) by (nonlinear_arith)
                requires j >= 0, self.size >= 0;
        }
        let mut p: usize = 0;
        while p < 5
            invariant
                p <= 5,
                5 * j + 5 <= strokes.len(),
                forall|k: int| 0 <= k < strokes.len() ==> self.stroke_is(k, #[trigger] strokes[k]),
                self.line_drawn(j as int),
                self.line_top(j as int) >= self.position.y,
                lettering.fits(text@.len()),
                canvas.draws() == start + Seq::new(p as nat, |q: int| self.draw_of(j as int, q, text@)),
            decreases 5 - p,
        {
            let s = strokes[5 * j + p];
            proof {
                assert((5 * j + p) / 5 == j && (5 * j + p) % 5 == p) by (nonlinear_arith)
                    requires p < 5;
                assert(self.stroke_is(5 * j + p, s));
            }
            canvas.draw_text(s.ink.rgba(), s.x, s.y, lettering, text);
            proof {
                assert(canvas.draws() =~= start + Seq::new((p + 1) as nat, |q: int| self.draw_of(j as int, q, text@)));
            }
            p = p + 1;
        }
    }

    /// Pass `p` of line `j` as a draw of `text`.
    pub open spec fn draw_of(&self, j: int, p: int, text: Seq<char>) -> Draw {
        let (x, y, ink) = pass_stroke(self.position.x as int, self.line_top(j), p);
        (ink.spec_rgba(), x, y, text)
    }

    /// Draws `lines` as this caption on `canvas` in `lettering`: for every line
    /// that is shown, its four outline passes and then its fill. A line that
    /// lies past the coordinate range, or whose run does not fit, is left out.
    pub fn render_lines(&self, canvas: &mut Canvas, lettering: &Lettering, lines: &Vec<String>)
        ensures
            final(canvas).draws() == old(canvas).draws() + self.planned(lettering, lines@, lines.len() as int),
    {
        let ghost start = canvas.draws();
        let strokes = self.strokes(lines.len());
        let k = strokes.len() / 5;
        let mut j: usize = 0;
        proof {
            assert(start + self.planned(lettering, lines@, 0) =~= start);
        }
        while j < lines.len()
            invariant
                j <= lines.len(),
                k == strokes.len() / 5,
                k <= lines.len(),
                strokes.len() % 5 == 0,
                forall|i: int| 0 <= i < strokes.len() ==> self.stroke_is(i, #[trigger] strokes[i]),
                forall|jj: int| 0 <= jj < lines.len() ==> (self.line_drawn(jj) <==> jj < k),
                canvas.draws() == start + self.planned(lettering, lines@, j as int),
            decreases lines.len() - j,
        {
            let ghost before = canvas.draws();
            if j < k && lettering.fits_text(lines[j].as_str()) {
                proof {
                    assert(5 * j + 5 <= strokes.len()) by (nonlinear_arith)
                        requires j < k, k == strokes.len() / 5, strokes.len() % 5 == 0;
                }
                self.draw_line(canvas, lettering, &strokes, j, lines[j].as_str());
                proof {
                    assert(Seq::new(5, |p: int| self.draw_of(j as int, p, lines@[j as int]@))
                        =~= self.line_draws(j as int, lines@));
                    assert(canvas.draws() =~= start + self.planned(lettering, lines@, j + 1));
                }
            }
            j = j + 1;
        }
    }
}

/// In strokes laid out for a caption, every drawn line gets its four outline
/// passes before its fill pass, and the fill is drawn in place at the line's top.
pub proof fn law_outline_before_fill(m: &Meme, strokes: Seq<Stroke>, j: int)
    requires
        forall|i: int| 0 <= i < strokes.len() ==> m.stroke_is(i, #[trigger] strokes[i]),
        0 <= j,
        5 * j + 5 <= strokes.len(),
    ensures
        forall|p: int| 0 <= p < 4 ==> (#[trigger] strokes[5 * j + p]).ink == Ink::Outline && strokes[5 * j + p].line == j,
        strokes[5 * j + 4].ink == Ink::Fill,
        strokes[5 * j + 4].line == j,
        strokes[5 * j + 4].x == m.position.x,
        strokes[5 * j + 4].y == m.line_top(j),
{
    assert forall|p: int| 0 <= p < 4 implies (#[trigger] strokes[5 * j + p]).ink == Ink::Outline && strokes[5 * j + p].line == j by {
        assert((5 * j + p) / 5 == j && (5 * j + p) % 5 == p) by (nonlinear_arith)
            requires 0 <= p < 5, 0 <= j;
        assert(m.stroke_is(5 * j + p, strokes[5 * j + p]));
    }
    assert((5 * j + 4) / 5 == j && (5 * j + 4) % 5 == 4) by (nonlinear_arith)
        requires 0 <= j;
    assert(m.stroke_is(5 * j + 4, strokes[5 * j + 4]));
}

/// The draws that show a line are its four outline passes, in the outline
/// colour, and then its fill, in the fill colour and in place at the line's
/// top, all with the line's text.
pub proof fn law_draws_outline_before_fill(m: &Meme, lines: Seq<String>, j: int)
    ensures
        m.line_draws(j, lines).len() == 5,
        forall|p: int| 0 <= p < 4 ==> (#[trigger] m.line_draws(j, lines)[p]).0 == Ink::Outline.spec_rgba()
            && m.line_draws(j, lines)[p].3 == lines[j]@,
        m.line_draws(j, lines)[4] == (Ink::Fill.spec_rgba(), m.position.x as int, m.line_top(j), lines[j]@),
{
}

} // verus!
