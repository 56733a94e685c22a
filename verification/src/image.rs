//! Colors and 8x8 frame images.
//!
//! A [`Color`] is three 8-bit channels.  An [`Image`] is a row-major grid
//! of 64 colors, the unit that the pipeline assembles from the byte
//! stream, renders procedurally, and hands to the display task.

use vstd::prelude::*;

verus! {

/// One pixel: red, green and blue channels, 8 bits each.
#[derive(Clone, Copy, PartialEq, Eq, Structural, Debug)]
pub struct Color {
    pub r: u8,
    pub g: u8,
    pub b: u8,
}

/// Perceptual gamma correction of a single channel: a quadratic curve,
/// `round(c * c / 255)`, which keeps 0 and 255 fixed and dims mid-range
/// values the way the eye expects.
pub open spec fn gamma_spec(c: int) -> int {
    (c * c + 127) / 255
}

/// Scalar division of a channel by `n`, rounded half away from zero
/// (for non-negative channels: half up).
pub open spec fn div_round_spec(c: int, n: int) -> int
    recommends
        n >= 1,
{
    (2 * c + n) / (2 * n)
}

/// `color` divided by `n`, channel-wise.
pub open spec fn color_div_spec(color: Color, n: int) -> Color {
    Color {
        r: div_round_spec(color.r as int, n) as u8,
        g: div_round_spec(color.g as int, n) as u8,
        b: div_round_spec(color.b as int, n) as u8,
    }
}

proof fn lemma_gamma_fits(c: int)
    requires
        0 <= c <= 255,
    ensures
        0 <= gamma_spec(c) <= 255,
{
    assert(0 <= (c * c + 127) / 255 <= 255) by (nonlinear_arith)
        requires 0 <= c <= 255;
}

proof fn lemma_div_round_fits(c: int, n: int)
    requires
        0 <= c <= 255,
        1 <= n,
    ensures
        0 <= div_round_spec(c, n) <= 255,
{
    assert(0 <= (2 * c + n) / (2 * n) <= 255) by (nonlinear_arith)
        requires 0 <= c <= 255 && 1 <= n;
}

impl Color {
    /// Apply gamma correction to every channel.
    pub fn gamma_correct(&self) -> (result: Self)
        ensures
            result.r == gamma_spec(self.r as int),
            result.g == gamma_spec(self.g as int),
            result.b == gamma_spec(self.b as int),
    {
        proof {
            lemma_gamma_fits(self.r as int);
            lemma_gamma_fits(self.g as int);
            lemma_gamma_fits(self.b as int);
        }
        Color {
            r: gamma_channel(self.r),
            g: gamma_channel(self.g),
            b: gamma_channel(self.b),
        }
    }

    /// Divide every channel by `n`, rounding half up and saturating in
    /// `[0, 255]` (used for the brightness falloff of generated frames).
    pub fn div_round(self, n: u32) -> (result: Self)
        requires
            1 <= n <= 1000,
        ensures
            result == color_div_spec(self, n as int),
    {
        proof {
            lemma_div_round_fits(self.r as int, n as int);
            lemma_div_round_fits(self.g as int, n as int);
            lemma_div_round_fits(self.b as int, n as int);
        }
        Color {
            r: div_round_channel(self.r, n),
            g: div_round_channel(self.g, n),
            b: div_round_channel(self.b, n),
        }
    }
}

impl Default for Color {
    /// Black.
    fn default() -> (result: Self)
        ensures
            result == (Color { r: 0, g: 0, b: 0 }),
    {
        Color { r: 0, g: 0, b: 0 }
    }
}

fn gamma_channel(c: u8) -> (result: u8)
    requires
        0 <= gamma_spec(c as int) <= 255,
    ensures
        result == gamma_spec(c as int),
{
    let wide: u32 = c as u32;
    ((wide * wide + 127) / 255) as u8
}

fn div_round_channel(c: u8, n: u32) -> (result: u8)
    requires
        1 <= n <= 1000,
        0 <= div_round_spec(c as int, n as int) <= 255,
    ensures
        result == div_round_spec(c as int, n as int),
{
    ((2 * (c as u32) + n) / (2 * n)) as u8
}

/// Channel `channel` (0 = red, 1 = green, 2 = blue) of `color`, as the
/// wire protocol orders the three payload bytes of a pixel.
pub open spec fn channel_of(color: Color, channel: int) -> u8 {
    if channel == 0 {
        color.r
    } else if channel == 1 {
        color.g
    } else {
        color.b
    }
}

/// `color` with channel `channel` replaced by `value`.
pub open spec fn with_channel(color: Color, channel: int, value: u8) -> Color {
    if channel == 0 {
        Color { r: value, ..color }
    } else if channel == 1 {
        Color { g: value, ..color }
    } else {
        Color { b: value, ..color }
    }
}

/// The 64 pixels decoded from a 192-byte payload: byte `3 * p + c` is
/// channel `c` of pixel `p`.
pub open spec fn frame_from_bytes(payload: Seq<u8>) -> Seq<Color>
    recommends
        payload.len() == 192,
{
    Seq::new(64, |p: int| Color {
        r: payload[3 * p],
        g: payload[3 * p + 1],
        b: payload[3 * p + 2],
    })
}

/// The brightness divisor of the generated gradient pattern at `(row, col)`.
pub open spec fn gradient_divisor(row: int, col: int) -> int {
    1 + row * row + col
}

/// The full gradient frame in base color `color`: brightness falls off
/// with the distance term `1 + row * row + col`.
pub open spec fn gradient_spec(color: Color) -> Seq<Color> {
    Seq::new(64, |i: int| color_div_spec(color, gradient_divisor(i / 8, i % 8)))
}

/// An 8x8 frame of pixels, row-major: pixel `(row, col)` is entry
/// `8 * row + col`.  Always fully initialized.
pub struct Image {
    pixels: Vec<Color>,
}

impl View for Image {
    type V = Seq<Color>;

    closed spec fn view(&self) -> Seq<Color> {
        self.pixels@
    }
}

impl Image {
    /// A well-formed image holds exactly 64 pixels.
    pub open spec fn wf(&self) -> bool {
        self@.len() == 64
    }

    /// An image with every pixel set to `color`.
    pub fn new_solid(color: Color) -> (result: Self)
        ensures
            result.wf(),
            forall|i: int| 0 <= i < 64 ==> result@[i] == color,
    {
        Image { pixels: vec![color; 64] }
    }

    /// The pixel at `(row, col)`.
    pub fn get(&self, row: usize, col: usize) -> (result: Color)
        requires
            self.wf(),
            row < 8,
            col < 8,
        ensures
            result == self@[8 * row + col],
    {
        self.pixels[8 * row + col]
    }

    /// Replace the pixel at `(row, col)`.
    pub fn set_pixel(&mut self, row: usize, col: usize, color: Color)
        requires
            old(self).wf(),
            row < 8,
            col < 8,
        ensures
            final(self).wf(),
            final(self)@ == old(self)@.update(8 * row + col, color),
    {
        self.pixels[8 * row + col] = color;
    }

    /// Row `row` as a fresh vector of its 8 pixels.
    pub fn row(&self, row: usize) -> (result: Vec<Color>)
        requires
            self.wf(),
            row < 8,
        ensures
            result@.len() == 8,
            forall|c: int| 0 <= c < 8 ==> result@[c] == self@[8 * row + c],
    {
        let mut out: Vec<Color> = Vec::new();
        let mut col: usize = 0;
        while col < 8
            invariant
                self.wf(),
                row < 8,
                col <= 8,
                out@.len() == col,
                forall|c: int| 0 <= c < col ==> out@[c] == self@[8 * row + c],
            decreases 8 - col,
        {
            out.push(self.pixels[8 * row + col]);
            col = col + 1;
        }
        out
    }

    /// Write payload byte `index` of the frame: byte `3 * p + c` is
    /// channel `c` of pixel `p`, as the wire protocol sends them.
    pub fn set_byte(&mut self, index: usize, value: u8)
        requires
            old(self).wf(),
            index < 192,
        ensures
            final(self).wf(),
            final(self)@ == old(self)@.update(
                index as int / 3,
                with_channel(old(self)@[index as int / 3], index as int % 3, value),
            ),
    {
        let pixel: usize = index / 3;
        let channel: usize = index % 3;
        let old_color: Color = self.pixels[pixel];
        let new_color: Color = if channel == 0 {
            Color { r: value, ..old_color }
        } else if channel == 1 {
            Color { g: value, ..old_color }
        } else {
            Color { b: value, ..old_color }
        };
        self.pixels[pixel] = new_color;
    }

    /// The gradient frame in base color `color`.
    pub fn gradient(color: Color) -> (result: Self)
        ensures
            result.wf(),
            result@ == gradient_spec(color),
    {
        let mut result = Image::default();
        let mut row: usize = 0;
        while row < 8
            invariant
                result.wf(),
                row <= 8,
                forall|i: int| 0 <= i < 8 * row ==> result@[i] == gradient_spec(color)[i],
            decreases 8 - row,
        {
            let mut col: usize = 0;
            while col < 8
                invariant
                    result.wf(),
                    row < 8,
                    col <= 8,
                    forall|i: int| 0 <= i < 8 * row + col ==> result@[i] == gradient_spec(color)[i],
                decreases 8 - col,
            {
                proof {
                    assert(row * row <= 49) by (nonlinear_arith)
                        requires row < 8;
                }
                let divisor: u32 = 1 + (row * row + col) as u32;
                result.set_pixel(row, col, color.div_round(divisor));
                proof {
                    let i = 8 * row + col;
                    assert(i / 8 == row && i % 8 == col) by (nonlinear_arith)
                        requires row < 8 && col < 8 && i == 8 * row + col;
                    assert(result@[i] == gradient_spec(color)[i]);
                }
                col = col + 1;
            }
            row = row + 1;
        }
        proof {
            assert(result@ =~= gradient_spec(color));
        }
        result
    }
}

impl Default for Image {
    /// An all-black image.
    fn default() -> (result: Self)
        ensures
            result.wf(),
            forall|i: int| 0 <= i < 64 ==> result@[i] == (Color { r: 0, g: 0, b: 0 }),
    {
        Image::new_solid(Color { r: 0, g: 0, b: 0 })
    }
}

} // verus!
