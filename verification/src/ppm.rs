//! A canvas as the text of a plain portable pixmap: a header, then, row by
//! row, the three components of every pixel as numbers from 0 to 255.

use vstd::prelude::*;
use crate::canvas::Canvas;
use crate::color::{Color, ColorView};
use crate::scalar::{Scalar, SCALE};

verus! {

/// The length from which on a line is broken at the next separator between
/// two components of a pixel: a line is to hold at most 70 characters, and a
/// component fills at most 3.
pub const BREAK_WIDTH: usize = 67;

/// The largest value of a color component in the text.
pub const MAX_COMPONENT: u8 = 255;

/// The characters of the text.
pub const NEWLINE: u8 = 10;

/// The character between two numbers on a line.
pub const SPACE: u8 = 32;

/// The character of the digit zero; the other digits follow it.
pub const DIGIT_ZERO: u8 = 48;

/// A color component as a number from 0 to 255: components below zero give
/// 0, components of one and above 255, and those between 256 times their
/// value, rounded down.
pub open spec fn scaled_component(c: int) -> int {
    if c < 0 {
        0
    } else if c >= SCALE {
        MAX_COMPONENT as int
    } else {
        (c * 256) / (SCALE as int)
    }
}

/// The decimal digits of a number.
pub open spec fn decimal(n: nat) -> Seq<u8>
    decreases n,
{
    if n < 10 {
        seq![(DIGIT_ZERO + n) as u8]
    } else {
        decimal(n / 10).push((DIGIT_ZERO + n % 10) as u8)
    }
}

/// The two characters that name the format, then width and height, then the
/// largest component value, each on a line of its own.
pub open spec fn header(width: nat, height: nat) -> Seq<u8> {
    seq![80u8, 51u8, NEWLINE] + decimal(width) + seq![SPACE] + decimal(height) + seq![NEWLINE]
        + decimal(MAX_COMPONENT as nat) + seq![NEWLINE]
}

/// Text in the making: the lines that are finished, and the line that is
/// being filled.
pub struct PpmText {
    pub written: Seq<u8>,
    pub line: Seq<u8>,
}

impl PpmText {
    /// The text with one more component at the end of the line.
    pub open spec fn with_component(self, c: int) -> PpmText {
        PpmText { written: self.written, line: self.line + decimal(scaled_component(c) as nat) }
    }

    /// The text with a space at the end of the line.
    pub open spec fn with_space(self) -> PpmText {
        PpmText { written: self.written, line: self.line.push(SPACE) }
    }

    /// The text with the line finished.
    pub open spec fn with_break(self) -> PpmText {
        PpmText { written: self.written + self.line.push(NEWLINE), line: Seq::empty() }
    }

    /// The text after a separator between two components of a pixel: a line
    /// that has reached the break width is finished, a shorter one gets a
    /// space.
    pub open spec fn separated(self) -> PpmText {
        if self.line.len() >= BREAK_WIDTH {
            self.with_break()
        } else {
            self.with_space()
        }
    }

    /// The text with the three components of a color, separated.
    pub open spec fn with_color(self, c: ColorView) -> PpmText {
        self.with_component(c.r).separated().with_component(c.g).separated().with_component(c.b)
    }

    /// The text with the pixels from index `from` on, a space between one
    /// pixel and the next.
    pub open spec fn with_pixels(self, pixels: Seq<ColorView>, from: int) -> PpmText
        decreases pixels.len() - from,
    {
        if from >= pixels.len() {
            self
        } else if from < pixels.len() - 1 {
            self.with_color(pixels[from]).with_space().with_pixels(pixels, from + 1)
        } else {
            self.with_color(pixels[from]).with_pixels(pixels, from + 1)
        }
    }

    /// The text with a row of pixels, which begins on a fresh line and ends
    /// its last line. What stood on a line that had been begun is dropped.
    pub open spec fn with_row(self, pixels: Seq<ColorView>) -> PpmText {
        (PpmText { written: self.written, line: Seq::empty() }).with_pixels(pixels, 0).with_break()
    }
}

/// The colors of row `y` of a canvas.
pub open spec fn row_colors(canvas: &Canvas, y: int) -> Seq<ColorView> {
    Seq::new(canvas.columns(), |x: int| canvas.pixel(x, y)@)
}

/// The finished lines with the rows of a canvas from row `from` on.
pub open spec fn with_rows(written: Seq<u8>, canvas: &Canvas, from: int) -> Seq<u8>
    decreases canvas.rows() - from,
{
    if from >= canvas.rows() {
        written
    } else {
        with_rows(
            (PpmText { written: written, line: Seq::empty() }).with_row(row_colors(canvas, from))
                .written,
            canvas,
            from + 1,
        )
    }
}

/// The whole text of a canvas.
pub open spec fn ppm_text(canvas: &Canvas) -> Seq<u8> {
    with_rows(header(canvas.columns(), canvas.rows()), canvas, 0)
}

/// A color component as a number from 0 to 255.
pub fn scale_and_clamp(f: Scalar) -> (r: u8)
    ensures
        r == scaled_component(f@),
{
    let raw = f.raw();
    if raw < 0 {
        0
    } else if raw >= SCALE {
        MAX_COMPONENT
    } else {
        assert(0 <= (raw * 256) / (SCALE as int) < 256) by {
            let scale = SCALE as int;
            let q = (raw * 256) / scale;
            vstd::arithmetic::div_mod::lemma_fundamental_div_mod(raw * 256, scale);
            vstd::arithmetic::div_mod::lemma_div_pos_is_pos(raw * 256, scale);
            if q >= 256 {
                assert(scale * q >= scale * 256) by (nonlinear_arith)
                    requires
                        q >= 256,
                        scale > 0,
                ;
            }
        }
        ((raw * 256) / SCALE) as u8
    }
}

/// Adds the decimal digits of `n` to the text.
fn push_decimal(out: &mut Vec<u8>, n: usize)
    ensures
        final(out)@ == old(out)@ + decimal(n as nat),
    decreases n,
{
    if n >= 10 {
        push_decimal(out, n / 10);
    }
    let ghost before = out@;
    out.push(DIGIT_ZERO + (n % 10) as u8);
    proof {
        if n >= 10 {
            assert(out@ =~= old(out)@ + decimal(n as nat));
        } else {
            assert(out@ =~= old(out)@ + decimal(n as nat));
        }
    }
}

/// The text under the pen: finished lines and the line being filled.
pub struct PpmWriter {
    pub written: Vec<u8>,
    pub line: Vec<u8>,
}

impl View for PpmWriter {
    type V = PpmText;

    open spec fn view(&self) -> PpmText {
        PpmText { written: self.written@, line: self.line@ }
    }
}

impl PpmWriter {
    /// A writer that has written the header for a picture of the given size.
    pub fn write_header(width: usize, height: usize) -> (w: PpmWriter)
        ensures
            w@ == (PpmText { written: header(width as nat, height as nat), line: Seq::empty() }),
    {
        let mut written: Vec<u8> = Vec::new();
        written.push(80u8);
        written.push(51u8);
        written.push(NEWLINE);
        push_decimal(&mut written, width);
        written.push(SPACE);
        push_decimal(&mut written, height);
        written.push(NEWLINE);
        let max: usize = 255;
        push_decimal(&mut written, max);
        written.push(NEWLINE);
        assert(written@ =~= header(width as nat, height as nat));
        PpmWriter { written, line: Vec::new() }
    }

    /// Adds a color component to the line.
    pub fn write_color_component(&mut self, f: Scalar)
        ensures
            final(self)@ == old(self)@.with_component(f@),
    {
        let value = scale_and_clamp(f);
        push_decimal(&mut self.line, value as usize);
    }

    fn write_break(&mut self)
        ensures
            final(self)@ == old(self)@.with_break(),
    {
        self.line.push(NEWLINE);
        self.written.append(&mut self.line);
    }

    fn write_space(&mut self)
        ensures
            final(self)@ == old(self)@.with_space(),
    {
        self.line.push(SPACE);
    }

    /// Separates two components of a pixel: by a line break where the line
    /// has reached the break width, else by a space.
    pub fn write_separator(&mut self)
        ensures
            final(self)@ == old(self)@.separated(),
    {
        if self.line.len() >= BREAK_WIDTH {
            self.write_break();
        } else {
            self.write_space();
        }
    }

    /// Adds the three components of a color.
    pub fn write_color(&mut self, c: Color)
        ensures
            final(self)@ == old(self)@.with_color(c@),
    {
        self.write_color_component(c.r);
        self.write_separator();
        self.write_color_component(c.g);
        self.write_separator();
        self.write_color_component(c.b);
    }

    /// Adds row `y` of the canvas. The row begins on a fresh line and ends
    /// its last line.
    pub fn write_pixel_row(&mut self, canvas: &Canvas, y: usize)
        requires
            y < canvas.rows(),
        ensures
            final(self)@ == old(self)@.with_row(row_colors(canvas, y as int)),
    {
        let ghost pixels = row_colors(canvas, y as int);
        let width = canvas.width();
        self.line.clear();
        let ghost fresh = self@;
        assert(fresh == (PpmText { written: old(self).written@, line: Seq::empty() })) by {
            assert(self.line@ =~= Seq::<u8>::empty());
        }
        let mut x: usize = 0;
        while x < width
            invariant
                x <= width,
                width == canvas.columns(),
                y < canvas.rows(),
                pixels == row_colors(canvas, y as int),
                fresh.with_pixels(pixels, 0) == self@.with_pixels(pixels, x as int),
            decreases width - x,
        {
            let c = canvas.get_pixel(x, y);
            assert(pixels[x as int] == c@);
            self.write_color(c);
            if x < width - 1 {
                self.write_space();
            }
            x += 1;
        }
        self.write_break();
    }

    /// Adds all rows of the canvas, each on lines of its own. A line that
    /// had been begun is dropped by the first row.
    pub fn write_body(&mut self, canvas: &Canvas)
        ensures
            final(self).written@ == with_rows(old(self).written@, canvas, 0),
            canvas.rows() > 0 ==> final(self).line@.len() == 0,
            canvas.rows() == 0 ==> final(self).line@ == old(self).line@,
    {
        let height = canvas.height();
        let mut y: usize = 0;
        while y < height
            invariant
                y <= height,
                height == canvas.rows(),
                y > 0 ==> self.line@.len() == 0,
                y == 0 ==> self.line@ == old(self).line@,
                with_rows(old(self).written@, canvas, 0) == with_rows(
                    self.written@,
                    canvas,
                    y as int,
                ),
            decreases height - y,
        {
            self.write_pixel_row(canvas, y);
            y += 1;
        }
    }
}

/// The canvas as the text of a plain portable pixmap.
pub fn to_ppm(canvas: &Canvas) -> (text: Vec<u8>)
    ensures
        text@ == ppm_text(canvas),
{
    let mut writer = PpmWriter::write_header(canvas.width(), canvas.height());
    writer.write_body(canvas);
    writer.written
}

} // verus!
