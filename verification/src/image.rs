//! The pixel grid, row by row, and its plain-text encoding.

use vstd::prelude::*;

verus! {

/// A grid of `width` by `height` pixels, stored row by row from the top.
pub struct Image<P> {
    width: u32,
    height: u32,
    img: Vec<P>,
}

/// The slot of pixel `(x, y)` in a grid `width` wide.
pub open spec fn slot_of(width: int, x: int, y: int) -> int {
    y * width + x
}

/// Slots and pixels of a grid correspond one to one: the slot of a pixel
/// lies in the grid and leads back to the pixel, and every slot of the grid
/// is the slot of the pixel it leads to.
pub proof fn lemma_slots_one_to_one(width: int, height: int, x: int, y: int, slot: int)
    requires
        0 < width,
        0 <= height,
    ensures
        0 <= x < width && 0 <= y < height ==> {
            &&& 0 <= slot_of(width, x, y) < width * height
            &&& slot_of(width, x, y) % width == x
            &&& slot_of(width, x, y) / width == y
        },
        0 <= slot < width * height ==> {
            &&& 0 <= slot % width < width
            &&& 0 <= slot / width < height
            &&& slot_of(width, slot % width, slot / width) == slot
        },
{
    if 0 <= x < width && 0 <= y < height {
        assert(0 <= y * width + x < width * height) by (nonlinear_arith)
            requires
                0 <= x < width,
                0 <= y < height,
        ;
        vstd::arithmetic::div_mod::lemma_fundamental_div_mod_converse(y * width + x, width, y, x);
    }
    if 0 <= slot < width * height {
        vstd::arithmetic::div_mod::lemma_fundamental_div_mod(slot, width);
        vstd::arithmetic::div_mod::lemma_mod_bound(slot, width);
        assert(0 <= slot / width < height) by (nonlinear_arith)
            requires
                0 < width,
                0 <= slot < width * height,
                slot == width * (slot / width) + slot % width,
                0 <= slot % width < width,
        ;
        assert(width * (slot / width) == (slot / width) * width) by (nonlinear_arith);
    }
}

/// Two pixels of a grid that share a slot are the same pixel.
pub proof fn lemma_slots_distinct(width: int, x1: int, y1: int, x2: int, y2: int)
    requires
        0 <= x1 < width,
        0 <= x2 < width,
        slot_of(width, x1, y1) == slot_of(width, x2, y2),
    ensures
        x1 == x2,
        y1 == y2,
{
    assert(y1 == y2) by (nonlinear_arith)
        requires
            0 <= x1 < width,
            0 <= x2 < width,
            y1 * width + x1 == y2 * width + x2,
    ;
}

impl<P> Image<P> {
    pub closed spec fn width_spec(&self) -> u32 {
        self.width
    }

    pub closed spec fn height_spec(&self) -> u32 {
        self.height
    }

    /// The pixels, row by row.
    pub closed spec fn view(&self) -> Seq<P> {
        self.img@
    }

    /// There is one pixel for every place of the grid.
    #[verifier::type_invariant]
    pub open spec fn wf(&self) -> bool {
        self@.len() == self.width_spec() * self.height_spec()
    }

    /// The pixel at `(x, y)`.
    pub open spec fn at(&self, x: int, y: int) -> P {
        self@[slot_of(self.width_spec() as int, x, y)]
    }
}

impl<P: Copy> Image<P> {
    /// A grid filled with `c`.
    pub fn with_background(width: u32, height: u32, c: P) -> (image: Image<P>)
        requires
            width * height <= u32::MAX,
        ensures
            image.wf(),
            image.width_spec() == width,
            image.height_spec() == height,
            forall|i: int| 0 <= i < image@.len() ==> image@[i] == c,
    {
        proof {
            assert(0 <= width * height) by (nonlinear_arith)
                requires
                    0 <= width,
                    0 <= height,
            ;
        }
        let n = (width as usize) * (height as usize);
        let mut img: Vec<P> = Vec::with_capacity(n);
        let mut i: usize = 0;
        while i < n
            invariant
                i <= n,
                img@.len() == i,
                forall|k: int| 0 <= k < i ==> img@[k] == c,
            decreases n - i,
        {
            img.push(c);
            i += 1;
        }
        Image { width, height, img }
    }

    /// The grid over pixels that are already laid out row by row; `None`
    /// where their number is not `width` times `height`.
    pub fn from_pixels(width: u32, height: u32, pixels: Vec<P>) -> (image: Option<Image<P>>)
        ensures
            image is Some <==> pixels@.len() == width * height,
            image matches Some(im) ==> im.wf() && im.width_spec() == width && im.height_spec()
                == height && im@ == pixels@,
    {
        proof {
            assert(width * height <= 0xffff_ffff * 0xffff_ffff) by (nonlinear_arith)
                requires
                    0 <= width <= 0xffff_ffff,
                    0 <= height <= 0xffff_ffff,
            ;
        }
        if pixels.len() as u64 == (width as u64) * (height as u64) {
            Some(Image { width, height, img: pixels })
        } else {
            None
        }
    }

    pub fn width(&self) -> (w: u32)
        ensures
            w == self.width_spec(),
    {
        self.width
    }

    pub fn height(&self) -> (h: u32)
        ensures
            h == self.height_spec(),
    {
        self.height
    }

    /// The pixels, row by row.
    pub fn buf(&self) -> (pixels: &Vec<P>)
        ensures
            pixels@ == self@,
            pixels@.len() == self.width_spec() * self.height_spec(),
    {
        proof {
            use_type_invariant(self);
        }
        &self.img
    }

    /// The slot of pixel `(x, y)` in [`Image::buf`].
    pub fn index_of(&self, x: u32, y: u32) -> (slot: usize)
        requires
            x < self.width_spec(),
            y < self.height_spec(),
        ensures
            slot == slot_of(self.width_spec() as int, x as int, y as int),
            slot < self@.len(),
    {
        let len = self.img.len();
        proof {
            use_type_invariant(self);
            lemma_slots_one_to_one(
                self.width as int,
                self.height as int,
                x as int,
                y as int,
                0,
            );
            assert(self.width * self.height == self.img@.len());
            let w = self.width as int;
            let row = (y as int) * w;
            assert(0 <= row) by (nonlinear_arith)
                requires
                    0 <= y,
                    0 <= w,
                    row == y * w,
            ;
            assert(row + x == slot_of(w, x as int, y as int));
            assert(row + x < self.img@.len());
            assert(row + x < len);
        }
        (y as usize) * (self.width as usize) + (x as usize)
    }

    /// The pixel `(x, y)` whose slot in [`Image::buf`] is `slot`.
    pub fn coords_of(&self, slot: usize) -> (xy: (u32, u32))
        requires
            slot < self@.len(),
        ensures
            xy.0 < self.width_spec(),
            xy.1 < self.height_spec(),
            slot_of(self.width_spec() as int, xy.0 as int, xy.1 as int) == slot,
    {
        proof {
            use_type_invariant(self);
            assert(self.width > 0) by (nonlinear_arith)
                requires
                    slot < self.width * self.height,
                    0 <= self.height,
                    0 <= self.width,
            ;
            lemma_slots_one_to_one(self.width as int, self.height as int, 0, 0, slot as int);
        }
        let w = self.width as usize;
        ((slot % w) as u32, (slot / w) as u32)
    }

    /// The pixel at `(x, y)`.
    pub fn get(&self, x: u32, y: u32) -> (c: P)
        requires
            x < self.width_spec(),
            y < self.height_spec(),
        ensures
            c == self.at(x as int, y as int),
    {
        let slot = self.index_of(x, y);
        self.img[slot]
    }

    /// Writes the pixel at `(x, y)`; every other pixel stays.
    pub fn set(&mut self, x: u32, y: u32, c: P)
        requires
            x < old(self).width_spec(),
            y < old(self).height_spec(),
        ensures
            final(self).wf(),
            final(self).width_spec() == old(self).width_spec(),
            final(self).height_spec() == old(self).height_spec(),
            final(self)@ == old(self)@.update(
                slot_of(old(self).width_spec() as int, x as int, y as int),
                c,
            ),
    {
        proof {
            use_type_invariant(&*self);
        }
        let slot = self.index_of(x, y);
        self.img[slot] = c;
    }
}

/// A pixel ready to be written: red, green and blue, each from 0 to 255.
pub type Rgb8 = (u8, u8, u8);

/// The decimal digits of `n` as ASCII, without leading zeros.
pub open spec fn decimal(n: nat) -> Seq<u8>
    decreases n,
{
    if n < 10 {
        seq![(48 + n) as u8]
    } else {
        decimal(n / 10).push((48 + n % 10) as u8)
    }
}

/// The three header lines of a plain-text pixmap: the format's magic, the width
/// and the height, and the largest channel value, 255.
pub open spec fn ppm_header(width: u32, height: u32) -> Seq<u8> {
    seq![80u8, 51u8, 10u8] + decimal(width as nat) + seq![32u8] + decimal(height as nat) + seq![
        10u8,
        50u8,
        53u8,
        53u8,
        10u8,
    ]
}

/// One pixel's line: the three channels in decimal, a space between them.
pub open spec fn ppm_pixel(pixel: Rgb8) -> Seq<u8> {
    decimal(pixel.0 as nat) + seq![32u8] + decimal(pixel.1 as nat) + seq![32u8] + decimal(
        pixel.2 as nat,
    ) + seq![10u8]
}

/// The lines of all pixels, in order.
pub open spec fn ppm_body(pixels: Seq<Rgb8>) -> Seq<u8>
    decreases pixels.len(),
{
    if pixels.len() == 0 {
        Seq::<u8>::empty()
    } else {
        ppm_body(pixels.drop_last()) + ppm_pixel(pixels.last())
    }
}

/// Appends the decimal digits of `n` to `out`.
pub fn push_decimal(out: &mut Vec<u8>, n: u32)
    ensures
        final(out)@ == old(out)@ + decimal(n as nat),
    decreases n,
{
    if n >= 10 {
        push_decimal(out, n / 10);
    }
    out.push(48 + (n % 10) as u8);
    proof {
        if n < 10 {
            assert(out@ =~= old(out)@ + decimal(n as nat));
        } else {
            assert(out@ =~= old(out)@ + decimal(n as nat / 10).push((48 + n % 10) as u8));
        }
    }
}

fn push_pixel(out: &mut Vec<u8>, pixel: Rgb8)
    ensures
        final(out)@ == old(out)@ + ppm_pixel(pixel),
{
    push_decimal(out, pixel.0 as u32);
    out.push(32);
    push_decimal(out, pixel.1 as u32);
    out.push(32);
    push_decimal(out, pixel.2 as u32);
    out.push(10);
    proof {
        assert(out@ =~= old(out)@ + ppm_pixel(pixel));
    }
}

impl Image<Rgb8> {
    /// Appends the image to `file` as a plain-text pixmap.
    pub fn write_ppm(&self, file: &mut Vec<u8>)
        ensures
            final(file)@ == old(file)@ + ppm_header(self.width_spec(), self.height_spec())
                + ppm_body(self@),
    {
        file.push(80);
        file.push(51);
        file.push(10);
        push_decimal(file, self.width);
        file.push(32);
        push_decimal(file, self.height);
        file.push(10);
        file.push(50);
        file.push(53);
        file.push(53);
        file.push(10);
        proof {
            assert(file@ =~= old(file)@ + ppm_header(self.width, self.height));
        }
        let ghost head = file@;
        let mut i: usize = 0;
        while i < self.img.len()
            invariant
                i <= self.img@.len(),
                file@ == head + ppm_body(self.img@.take(i as int)),
            decreases self.img@.len() - i,
        {
            push_pixel(file, self.img[i]);
            proof {
                let upto = self.img@.take(i + 1);
                assert(upto.drop_last() =~= self.img@.take(i as int));
                assert(upto.last() == self.img@[i as int]);
                assert(file@ =~= head + ppm_body(upto));
            }
            i += 1;
        }
        proof {
            assert(self.img@.take(i as int) =~= self.img@);
        }
    }
}

} // verus!
