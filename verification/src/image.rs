//! The raster that a rendering fills, and the bytes it is stored as.
use vstd::prelude::*;
use crate::scalar::Scalar;

verus! {

/// The largest level of a sample in a pixmap file.
pub const RESOLUTION: u8 = 255;

/// One pixel: the red, green and blue light that was gathered for it.
#[derive(Debug, Clone, Copy)]
pub struct Pixel {
    pub r: Scalar,
    pub g: Scalar,
    pub b: Scalar,
}

impl Pixel {
    pub fn rgb(r: Scalar, g: Scalar, b: Scalar) -> (pixel: Self)
        ensures
            pixel.r == r,
            pixel.g == g,
            pixel.b == b,
    {
        Self { r, g, b }
    }

    /// The red, green or blue channel, for `c` from 0 to 2.
    pub open spec fn channel(self, c: int) -> Scalar {
        if c == 0 {
            self.r
        } else if c == 1 {
            self.g
        } else {
            self.b
        }
    }

    /// The pixel without any light.
    pub fn black() -> (pixel: Self)
        ensures
            pixel.r.bits == 0,
            pixel.g.bits == 0,
            pixel.b.bits == 0,
    {
        Self::rgb(Scalar::zero(), Scalar::zero(), Scalar::zero())
    }
}

/// A raster of pixels, stored row by row from the top.
#[derive(Clone)]
pub struct Image {
    pixels: Vec<Pixel>,
    width: usize,
    height: usize,
}

impl Image {
    /// There is one pixel for every place of the raster.
    pub closed spec fn wf(&self) -> bool {
        self.pixels@.len() == self.width * self.height
    }

    pub closed spec fn columns(&self) -> nat {
        self.width as nat
    }

    pub closed spec fn rows(&self) -> nat {
        self.height as nat
    }

    /// The pixels, row by row from the top, each row from the left.
    pub closed spec fn raster(&self) -> Seq<Pixel> {
        self.pixels@
    }

    /// The pixel in column `x` of row `y`.
    pub open spec fn at(&self, x: int, y: int) -> Pixel {
        self.raster()[y * self.columns() + x]
    }

    /// A raster of the given size with every pixel set to `fill`.
    pub fn new(width: usize, height: usize, fill: Pixel) -> (image: Self)
        requires
            width * height <= usize::MAX,
        ensures
            image.wf(),
            image.columns() == width,
            image.rows() == height,
            image.raster().len() == width * height,
            forall|i: int| 0 <= i < width * height ==> image.raster()[i] == fill,
    {
        let count = width * height;
        let mut pixels: Vec<Pixel> = Vec::new();
        let mut i: usize = 0;
        while i < count
            invariant
                i <= count,
                pixels@.len() == i,
                forall|k: int| 0 <= k < i ==> pixels@[k] == fill,
            decreases count - i,
        {
            pixels.push(fill);
            i += 1;
        }
        Self { pixels, width, height }
    }

    pub fn width(&self) -> (w: usize)
        ensures
            w == self.columns(),
    {
        self.width
    }

    pub fn height(&self) -> (h: usize)
        ensures
            h == self.rows(),
    {
        self.height
    }

    /// The pixel in column `x` of row `y`.
    pub fn pixel(&self, x: usize, y: usize) -> (p: &Pixel)
        requires
            self.wf(),
            x < self.columns(),
            y < self.rows(),
        ensures
            *p == self.at(x as int, y as int),
    {
        proof {
            lemma_place_in_raster(x as int, y as int, self.width as int, self.height as int);
            assert(self.pixels@.len() == self.width * self.height);
            assert(y * self.width + x < self.pixels.len());
        }
        &self.pixels[y * self.width + x]
    }

    /// The pixel in column `x` of row `y`, to be changed in place.
    pub fn pixel_mut(&mut self, x: usize, y: usize) -> (p: &mut Pixel)
        requires
            old(self).wf(),
            x < old(self).columns(),
            y < old(self).rows(),
        ensures
            *p == old(self).at(x as int, y as int),
            final(self).wf(),
            final(self).columns() == old(self).columns(),
            final(self).rows() == old(self).rows(),
            final(self).raster() == old(self).raster().update(
                y * old(self).columns() + x,
                *final(p),
            ),
    {
        proof {
            lemma_place_in_raster(x as int, y as int, self.width as int, self.height as int);
            assert(self.pixels@.len() == self.width * self.height);
            assert(y * self.width + x < self.pixels.len());
        }
        let place = y * self.width + x;
        &mut self.pixels[place]
    }

    /// The rows of the raster from the top, in one run.
    pub fn pixels(&self) -> (all: &Vec<Pixel>)
        ensures
            all@ == self.raster(),
    {
        &self.pixels
    }
}

/// A place of the raster lies within the run of its pixels.
pub proof fn lemma_place_in_raster(x: int, y: int, width: int, height: int)
    requires
        0 <= x < width,
        0 <= y < height,
    ensures
        0 <= y * width + x < width * height,
        y * width <= (height - 1) * width,
{
    assert(y * width <= (height - 1) * width) by (nonlinear_arith)
        requires
            0 <= y <= height - 1,
            0 <= width,
    ;
    assert((height - 1) * width + width == width * height) by (nonlinear_arith);
    assert(0 <= y * width) by (nonlinear_arith)
        requires
            0 <= y,
            0 <= width,
    ;
}

/// The digits of a number in base ten, as ASCII.
pub open spec fn decimal(n: nat) -> Seq<u8>
    decreases n,
{
    if n < 10 {
        seq![(48 + n) as u8]
    } else {
        decimal(n / 10).push((48 + n % 10) as u8)
    }
}

/// The head of a binary pixmap file: the mark of the format, a capital P
/// and the digit six, then a blank, then width, height and
/// the largest sample value in base ten, each followed by one blank.
pub open spec fn ppm_header(width: nat, height: nat, resolution: nat) -> Seq<u8> {
    seq![80u8, 54u8, 32u8] + decimal(width) + seq![32u8] + decimal(height) + seq![32u8] + decimal(
        resolution,
    ) + seq![32u8]
}

/// Appends the digits of a number in base ten.
pub fn push_decimal(out: &mut Vec<u8>, n: usize)
    ensures
        final(out)@ == old(out)@ + decimal(n as nat),
{
    let mut digits: Vec<u8> = Vec::new();
    let mut rest: usize = n;
    // The digits from the last to the second.
    while rest >= 10
        invariant
            decimal(n as nat) == decimal(rest as nat) + digits@.reverse(),
        decreases rest,
    {
        let digit: u8 = (rest % 10) as u8 + 48;
        proof {
            let tail = digits@.reverse();
            assert(digits@.push(digit).reverse() == seq![digit] + tail);
            assert(decimal(rest as nat) == decimal((rest / 10) as nat).push(digit));
            assert(decimal((rest / 10) as nat).push(digit) + tail == decimal((rest / 10) as nat)
                + (seq![digit] + tail));
        }
        digits.push(digit);
        rest = rest / 10;
    }
    let first: u8 = rest as u8 + 48;
    let ghost start = out@;
    out.push(first);
    assert(decimal(rest as nat) == seq![first]);
    let ghost reversed = digits@.reverse();
    let mut i: usize = digits.len();
    while i > 0
        invariant
            i <= digits@.len(),
            reversed == digits@.reverse(),
            out@ == start + seq![first] + reversed.subrange(0, digits@.len() - i),
        decreases i,
    {
        i -= 1;
        out.push(digits[i]);
        proof {
            let done = digits@.len() - i;
            assert(reversed.subrange(0, done) == reversed.subrange(0, done - 1).push(
                digits@[i as int],
            ));
        }
    }
    proof {
        assert(reversed.subrange(0, digits@.len() as int) == reversed);
        assert(start + seq![first] + reversed == start + (seq![first] + reversed));
    }
}

/// The sample of channel `c` of the pixel with number `index`, in a file
/// whose samples begin at `base`: three samples for each pixel, red, green
/// and blue, pixel after pixel.
pub open spec fn sample_of(bytes: Seq<u8>, base: int, index: int, c: int) -> u8 {
    bytes[base + 3 * index + c]
}

/// The sample of channel `c` of the pixel in column `x` of row `y`, in a
/// file whose samples begin at `base`: the rows from the top, each row from
/// the left.
pub open spec fn sample_at(bytes: Seq<u8>, base: int, columns: nat, x: int, y: int, c: int) -> u8 {
    sample_of(bytes, base, y * columns + x, c)
}

impl Image {
    /// The head of the file for this raster.
    pub open spec fn head(&self) -> Seq<u8> {
        ppm_header(self.columns(), self.rows(), RESOLUTION as nat)
    }

    /// Writes the raster as a binary pixmap file into a buffer: the head,
    /// then for every pixel, row by row from the top and each row from the
    /// left, the levels of its red, green and blue channel. `quantize`
    /// turns a channel into its level from 0 to `RESOLUTION`.
    pub fn write_ppm<F: Fn(Scalar) -> u8>(&self, quantize: F, writer: &mut Vec<u8>)
        requires
            self.wf(),
            forall|channel: Scalar| call_requires(quantize, (channel,)),
        ensures
            final(writer)@.len() == old(writer)@.len() + self.head().len() + 3
                * self.raster().len(),
            final(writer)@.subrange(0, (old(writer)@.len() + self.head().len()) as int) == old(writer)@
                + self.head(),
            forall|x: int, y: int, c: int|
                0 <= x < self.columns() && 0 <= y < self.rows() && 0 <= c < 3 ==> call_ensures(
                    quantize,
                    (self.at(x, y).channel(c),),
                    #[trigger] sample_at(
                        final(writer)@,
                        (old(writer)@.len() + self.head().len()) as int,
                        self.columns(),
                        x,
                        y,
                        c,
                    ),
                ),
    {
        let ghost start = writer@;
        let ghost mark = seq![80u8, 54u8, 32u8];
        writer.push(80u8);
        writer.push(54u8);
        writer.push(32u8);
        assert(writer@ == start + mark);
        push_decimal(writer, self.width);
        writer.push(32u8);
        push_decimal(writer, self.height);
        writer.push(32u8);
        push_decimal(writer, RESOLUTION as usize);
        writer.push(32u8);
        let ghost head = self.head();
        assert(writer@ == start + head);
        let ghost base: int = (start.len() + head.len()) as int;
        let mut i: usize = 0;
        while i < self.pixels.len()
            invariant
                i <= self.pixels@.len(),
                base == start.len() + head.len(),
                writer@.len() == base + 3 * i,
                writer@.subrange(0, base) == start + head,
                forall|channel: Scalar| call_requires(quantize, (channel,)),
                forall|j: int, c: int|
                    0 <= j < i && 0 <= c < 3 ==> call_ensures(
                        quantize,
                        (self.pixels@[j].channel(c),),
                        #[trigger] sample_of(writer@, base, j, c),
                    ),
            decreases self.pixels@.len() - i,
        {
            let pixel = self.pixels[i];
            let red = quantize(pixel.r);
            let green = quantize(pixel.g);
            let blue = quantize(pixel.b);
            let ghost before = writer@;
            writer.push(red);
            writer.push(green);
            writer.push(blue);
            proof {
                assert(writer@.subrange(0, base) == before.subrange(0, base));
                assert forall|j: int, c: int| 0 <= j < i + 1 && 0 <= c < 3 implies call_ensures(
                    quantize,
                    (self.pixels@[j].channel(c),),
                    #[trigger] sample_of(writer@, base, j, c),
                ) by {
                    if j < i {
                        assert(sample_of(writer@, base, j, c) == sample_of(before, base, j, c));
                    }
                }
            }
            i += 1;
        }
        proof {
            assert forall|x: int, y: int, c: int|
                0 <= x < self.columns() && 0 <= y < self.rows() && 0 <= c < 3 implies call_ensures(
                quantize,
                (self.at(x, y).channel(c),),
                #[trigger] sample_at(writer@, base, self.columns(), x, y, c),
            ) by {
                lemma_place_in_raster(x, y, self.width as int, self.height as int);
                let j = y * self.columns() + x;
                assert(0 <= j < self.pixels@.len());
                assert(sample_at(writer@, base, self.columns(), x, y, c) == sample_of(
                    writer@,
                    base,
                    j,
                    c,
                ));
            }
        }
    }
}

} // verus!
