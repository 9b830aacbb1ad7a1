//! The pixel buffer that a rendering is written into.

use crate::colour::{blue_of, green_of, pack_rgb24, packed_rgb24, red_of, unpack_rgb24};
use vstd::prelude::*;

verus! {

/// A `width` by `height` raster. Each pixel takes three bytes, blue, green,
/// red, and the rows follow each other from the top one down.
pub struct Image {
    pixel_data: Vec<u8>,
    width: u16,
    height: u16,
}

/// Where the three bytes of pixel `(x, y)` start in the buffer of an image
/// that is `width` pixels wide.
pub open spec fn pixel_index(width: nat, x: nat, y: nat) -> int {
    3 * (x + width * y) as int
}

/// The number of bytes in the buffer of a `width` by `height` image.
pub open spec fn buffer_len(width: nat, height: nat) -> nat {
    3 * width * height
}

/// A buffer of `len` bytes in which every pixel is `(r, g, b)`.
pub open spec fn uniform_buffer(len: nat, r: u8, g: u8, b: u8) -> Seq<u8> {
    Seq::new(
        len,
        |i: int|
            if i % 3 == 0 {
                b
            } else if i % 3 == 1 {
                g
            } else {
                r
            },
    )
}

/// The last byte of every pixel of the image lies inside its buffer.
pub proof fn lemma_pixel_in_buffer(width: nat, height: nat, x: nat, y: nat)
    requires
        x < width,
        y < height,
    ensures
        0 <= pixel_index(width, x, y),
        pixel_index(width, x, y) + 3 <= buffer_len(width, height),
{
    assert(width * y + width <= width * height) by (nonlinear_arith)
        requires
            y + 1 <= height,
    ;
    assert(3 * width * height == 3 * (width * height)) by (nonlinear_arith);
    assert(0 <= width * y) by (nonlinear_arith);
}

/// A buffer of `3 * width * height` bytes, each 255: a white image.
pub fn blank_pixel_data(width: u16, height: u16) -> (v: Vec<u8>)
    requires
        buffer_len(width as nat, height as nat) <= usize::MAX,
    ensures
        v@ == uniform_buffer(buffer_len(width as nat, height as nat), 255, 255, 255),
{
    proof {
        assert(3 * width * height == width * height * 3) by (nonlinear_arith);
        assert(0 <= width * height <= width * height * 3) by (nonlinear_arith);
    }
    let mut v: Vec<u8> = Vec::with_capacity(width as usize * height as usize * 3);
    assert(width * 0 == 0);
    for y in 0..height
        invariant
            v@.len() == 3 * (width * y),
            forall|i: int| 0 <= i < v@.len() ==> v@[i] == 255,
    {
        for x in 0..width
            invariant
                v@.len() == 3 * (width * y) + 3 * x,
                forall|i: int| 0 <= i < v@.len() ==> v@[i] == 255,
        {
            v.push(255);
            v.push(255);
            v.push(255);
        }
        proof {
            assert(width * y + width == width * (y + 1)) by (nonlinear_arith);
        }
    }
    proof {
        assert(3 * (width * height) == 3 * width * height) by (nonlinear_arith);
    }
    assert(v@ =~= uniform_buffer(buffer_len(width as nat, height as nat), 255, 255, 255));
    return v;
}

impl View for Image {
    type V = Seq<u8>;

    /// The buffer: three bytes per pixel, row after row.
    closed spec fn view(&self) -> Seq<u8> {
        self.pixel_data@
    }
}

impl Image {
    #[verifier::type_invariant]
    spec fn well_formed(&self) -> bool {
        self.pixel_data@.len() == buffer_len(self.width as nat, self.height as nat)
    }

    /// The number of pixels in a row.
    pub closed spec fn spec_width(&self) -> nat {
        self.width as nat
    }

    /// The number of rows.
    pub closed spec fn spec_height(&self) -> nat {
        self.height as nat
    }

    /// The packed colour of pixel `(x, y)`.
    pub open spec fn spec_pixel(&self, x: nat, y: nat) -> nat {
        let i = pixel_index(self.spec_width(), x, y);
        packed_rgb24(self@[i + 2], self@[i + 1], self@[i])
    }

    /// A white image of the given size.
    pub fn new(width: u16, height: u16) -> (image: Self)
        requires
            buffer_len(width as nat, height as nat) <= usize::MAX,
        ensures
            image.spec_width() == width,
            image.spec_height() == height,
            image@ == uniform_buffer(buffer_len(width as nat, height as nat), 255, 255, 255),
    {
        Image { pixel_data: blank_pixel_data(width, height), width, height }
    }

    /// Gives every pixel the colour `(r, g, b)`, and hands the image back.
    pub fn fill_with(&mut self, r: u8, g: u8, b: u8) -> (filled: &mut Self)
        ensures
            filled.spec_width() == old(self).spec_width(),
            filled.spec_height() == old(self).spec_height(),
            filled@ == uniform_buffer(
                buffer_len(old(self).spec_width(), old(self).spec_height()),
                r,
                g,
                b,
            ),
            *final(self) == *final(filled),
    {
        proof {
            use_type_invariant(&*self);
        }
        let width: usize = self.width as usize;
        let height: usize = self.height as usize;
        let ghost len: nat = buffer_len(width as nat, height as nat);
        assert(self.pixel_data@.len() == self.pixel_data.len());
        assert(width * 0 == 0);
        for y in 0..height
            invariant
                width == self.width,
                height == self.height,
                len == buffer_len(width as nat, height as nat),
                self.pixel_data@.len() == len,
                len <= usize::MAX,
                forall|i: int|
                    0 <= i < 3 * (width * y) && i < len ==> self.pixel_data@[i] == uniform_buffer(
                        len,
                        r,
                        g,
                        b,
                    )[i],
        {
            for x in 0..width
                invariant
                    y < height,
                    width == self.width,
                    height == self.height,
                    len == buffer_len(width as nat, height as nat),
                    self.pixel_data@.len() == len,
                    len <= usize::MAX,
                    forall|i: int|
                        0 <= i < 3 * (width * y) + 3 * x && i < len ==> self.pixel_data@[i] == uniform_buffer(
                            len,
                            r,
                            g,
                            b,
                        )[i],
            {
                proof {
                    lemma_pixel_in_buffer(width as nat, height as nat, x as nat, y as nat);
                    assert(3 * width * y == 3 * (width * y)) by (nonlinear_arith);
                }
                self.pixel_data[3 * x + 3 * width * y] = b;
                self.pixel_data[1 + 3 * x + 3 * width * y] = g;
                self.pixel_data[2 + 3 * x + 3 * width * y] = r;
            }
            proof {
                assert(width * y + width == width * (y + 1)) by (nonlinear_arith);
            }
        }
        proof {
            assert(3 * (width * height) == 3 * width * height) by (nonlinear_arith);
            assert(self.pixel_data@ =~= uniform_buffer(len, r, g, b));
        }
        return self;
    }

    /// Writes the packed colour `rgb24` into pixel `(x, y)`, where `y` counts
    /// rows from the top. No other pixel changes.
    pub fn put_pixel(&mut self, x: u16, y: u16, rgb24: u32)
        requires
            x < old(self).spec_width(),
            y < old(self).spec_height(),
        ensures
            final(self).spec_width() == old(self).spec_width(),
            final(self).spec_height() == old(self).spec_height(),
            final(self)@ == old(self)@.update(
                pixel_index(old(self).spec_width(), x as nat, y as nat),
                blue_of(rgb24),
            ).update(
                pixel_index(old(self).spec_width(), x as nat, y as nat) + 1,
                green_of(rgb24),
            ).update(pixel_index(old(self).spec_width(), x as nat, y as nat) + 2, red_of(rgb24)),
            final(self)@.len() == old(self)@.len(),
    {
        proof {
            use_type_invariant(&*self);
            lemma_pixel_in_buffer(self.width as nat, self.height as nat, x as nat, y as nat);
            assert(self.pixel_data@.len() == self.pixel_data.len());
        }
        let (r, g, b) = unpack_rgb24(rgb24);
        let i: usize = 3 * (x as usize + self.width as usize * y as usize);
        self.pixel_data[i] = b;
        self.pixel_data[i + 1] = g;
        self.pixel_data[i + 2] = r;
    }

    /// The packed colour of pixel `(x, y)`, where `y` counts rows from the top.
    pub fn get_pixel(&self, x: u16, y: u16) -> (rgb24: u32)
        requires
            x < self.spec_width(),
            y < self.spec_height(),
        ensures
            rgb24 == self.spec_pixel(x as nat, y as nat),
    {
        proof {
            use_type_invariant(self);
            lemma_pixel_in_buffer(self.width as nat, self.height as nat, x as nat, y as nat);
            assert(self.pixel_data@.len() == self.pixel_data.len());
        }
        let i: usize = 3 * (x as usize + self.width as usize * y as usize);
        pack_rgb24(self.pixel_data[i + 2], self.pixel_data[i + 1], self.pixel_data[i])
    }

    /// The number of pixels in a row.
    pub fn width(&self) -> (width: u16)
        ensures
            width == self.spec_width(),
    {
        self.width
    }

    /// The number of rows.
    pub fn height(&self) -> (height: u16)
        ensures
            height == self.spec_height(),
    {
        self.height
    }

    /// The buffer: three bytes per pixel, blue, green, red, row after row from
    /// the top.
    pub fn pixel_data(&self) -> (data: &Vec<u8>)
        ensures
            data@ == self@,
            data@.len() == buffer_len(self.spec_width(), self.spec_height()),
    {
        proof {
            use_type_invariant(self);
        }
        &self.pixel_data
    }
}

} // verus!
