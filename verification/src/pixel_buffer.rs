//! In-memory RGBA images used by the deterministic renderer.

use vstd::prelude::*;

verus! {

/// A single unpremultiplied 8-bit sRGBA pixel.
#[derive(Clone, Copy, Debug, Default, PartialEq, Eq, Structural)]
pub struct Pixel {
    /// Red component.
    pub red: u8,
    /// Green component.
    pub green: u8,
    /// Blue component.
    pub blue: u8,
    /// Alpha component.
    pub alpha: u8,
}

/// A fully transparent black pixel.
pub open spec fn transparent() -> Pixel {
    Pixel { red: 0, green: 0, blue: 0, alpha: 0 }
}

impl Pixel {
    /// Creates an 8-bit sRGBA pixel.
    pub fn rgba(red: u8, green: u8, blue: u8, alpha: u8) -> (r: Self)
        ensures
            r == (Pixel { red, green, blue, alpha }),
    {
        Pixel { red, green, blue, alpha }
    }

    /// Returns a fully transparent black pixel.
    pub fn transparent() -> (r: Self)
        ensures
            r == transparent(),
    {
        Pixel { red: 0, green: 0, blue: 0, alpha: 0 }
    }
}

/// An in-memory image buffer for deterministic rendering tests.
///
/// Pixels are stored in row-major order; the buffer always holds exactly
/// `width * height` of them.
#[derive(Debug, PartialEq, Eq)]
pub struct PixelBuffer {
    width: u32,
    height: u32,
    pixels: Vec<Pixel>,
}

/// The model of a [`PixelBuffer`].
pub struct ImageView {
    /// Width in pixels.
    pub width: nat,
    /// Height in pixels.
    pub height: nat,
    /// Pixels in row-major order.
    pub pixels: Seq<Pixel>,
}

impl View for PixelBuffer {
    type V = ImageView;

    closed spec fn view(&self) -> ImageView {
        ImageView { width: self.width as nat, height: self.height as nat, pixels: self.pixels@ }
    }
}

impl Clone for PixelBuffer {
    /// Copies the buffer pixel by pixel.
    fn clone(&self) -> (r: Self)
        ensures
            r@ == self@,
            r.well_formed() == self.well_formed(),
    {
        let mut pixels: Vec<Pixel> = Vec::with_capacity(self.pixels.len());
        let mut i: usize = 0;
        while i < self.pixels.len()
            invariant
                i <= self.pixels@.len(),
                pixels@ == self.pixels@.subrange(0, i as int),
            decreases self.pixels@.len() - i,
        {
            pixels.push(self.pixels[i]);
            i = i + 1;
            assert(pixels@ =~= self.pixels@.subrange(0, i as int));
        }
        assert(pixels@ =~= self.pixels@);
        PixelBuffer { width: self.width, height: self.height, pixels }
    }
}

/// Why a [`PixelBuffer`] could not be allocated.
#[derive(Clone, Copy, Debug, PartialEq, Eq, Structural)]
pub enum PixelBufferError {
    /// The requested dimensions exceed the addressable pixel count.
    TooLarge,
}

impl PixelBufferError {
    /// Returns a human-readable description of the error.
    pub fn describe(&self) -> (r: &'static str)
        ensures
            r@ == "pixel buffer dimensions are too large"@,
    {
        "pixel buffer dimensions are too large"
    }
}

/// The row-major index of `(x, y)` in an image of the given width and height,
/// when the position lies inside it.
pub open spec fn pixel_index(width: nat, height: nat, x: nat, y: nat) -> Option<nat> {
    if x < width && y < height {
        Some(y * width + x)
    } else {
        None
    }
}

impl PixelBuffer {
    /// The buffer holds exactly `width * height` pixels.
    pub closed spec fn well_formed(&self) -> bool {
        self.pixels@.len() == self.width as nat * self.height as nat
    }

    /// Creates a transparent buffer with `width` by `height` pixels.
    ///
    /// Returns [`PixelBufferError::TooLarge`] when the pixel count does not
    /// fit in `usize`.
    pub fn new(width: u32, height: u32) -> (r: Result<Self, PixelBufferError>)
        ensures
            width as nat * height as nat <= usize::MAX ==> (r matches Ok(b) && b.well_formed()
                && b@.width == width && b@.height == height && b@.pixels == Seq::new(
                width as nat * height as nat,
                |i: int| transparent(),
            )),
            width as nat * height as nat > usize::MAX ==> r == Err::<Self, PixelBufferError>(
                PixelBufferError::TooLarge,
            ),
    {
        proof {
            lemma_product_fits(width as nat, height as nat);
        }
        let count: u64 = (width as u64) * (height as u64);
        if count > usize::MAX as u64 {
            return Err(PixelBufferError::TooLarge);
        }
        let pixels = vec![Pixel::transparent(); count as usize];
        assert(pixels@ =~= Seq::new(width as nat * height as nat, |i: int| transparent()));
        Ok(PixelBuffer { width, height, pixels })
    }

    /// Returns the image width in physical pixels.
    pub fn width(&self) -> (r: u32)
        ensures
            r == self@.width,
    {
        self.width
    }

    /// Returns the image height in physical pixels.
    pub fn height(&self) -> (r: u32)
        ensures
            r == self@.height,
    {
        self.height
    }

    /// Returns the pixel at `(x, y)`, or `None` outside the buffer.
    pub fn get(&self, x: u32, y: u32) -> (r: Option<Pixel>)
        requires
            self.well_formed(),
        ensures
            match pixel_index(self@.width, self@.height, x as nat, y as nat) {
                Some(i) => r == Some(self@.pixels[i as int]),
                None => r is None,
            },
    {
        match self.index_of(x, y) {
            Some(index) => Some(self.pixels[index]),
            None => None,
        }
    }

    /// Replaces the pixel at `(x, y)` and returns whether the position lies
    /// inside the buffer; the buffer is unchanged when it does not.
    pub fn set(&mut self, x: u32, y: u32, pixel: Pixel) -> (r: bool)
        requires
            old(self).well_formed(),
        ensures
            final(self).well_formed(),
            final(self)@.width == old(self)@.width,
            final(self)@.height == old(self)@.height,
            match pixel_index(old(self)@.width, old(self)@.height, x as nat, y as nat) {
                Some(i) => r && final(self)@.pixels == old(self)@.pixels.update(i as int, pixel),
                None => !r && final(self)@.pixels == old(self)@.pixels,
            },
    {
        match self.index_of(x, y) {
            Some(index) => {
                self.pixels.set(index, pixel);
                true
            },
            None => false,
        }
    }

    /// Returns pixel data in row-major order.
    pub fn pixels(&self) -> (r: &[Pixel])
        ensures
            r@ == self@.pixels,
            self.well_formed() ==> r@.len() == self@.width * self@.height,
    {
        self.pixels.as_slice()
    }

    fn index_of(&self, x: u32, y: u32) -> (r: Option<usize>)
        requires
            self.well_formed(),
        ensures
            match pixel_index(self@.width, self@.height, x as nat, y as nat) {
                Some(i) => (r matches Some(k) && k as nat == i) && i < self@.pixels.len(),
                None => r is None,
            },
    {
        if x < self.width && y < self.height {
            proof {
                lemma_index_in_bounds(x as nat, y as nat, self.width as nat, self.height as nat);
                lemma_product_fits(y as nat, self.width as nat);
            }
            let index = (y as u64) * (self.width as u64) + (x as u64);
            assert(index as nat == y as nat * self.width as nat + x as nat);
            assert(index < self.pixels@.len());
            let len = self.pixels.len();
            assert(index < len);
            Some(index as usize)
        } else {
            None
        }
    }
}

proof fn lemma_product_fits(a: nat, b: nat)
    requires
        a <= u32::MAX,
        b <= u32::MAX,
    ensures
        a * b <= u32::MAX as nat * u32::MAX as nat,
        a * b < u64::MAX,
{
    assert(a * b <= u32::MAX as nat * u32::MAX as nat) by (nonlinear_arith)
        requires
            a <= u32::MAX,
            b <= u32::MAX,
    ;
}

proof fn lemma_index_in_bounds(x: nat, y: nat, width: nat, height: nat)
    requires
        x < width,
        y < height,
    ensures
        y * width + x < width * height,
{
    assert(y * width + x < width * height) by (nonlinear_arith)
        requires
            x < width,
            y < height,
    ;
}

/// The bytes a presentation surface shows for `frame`: its RGBA bytes when
/// `byte_count` is exactly four per pixel, and zeros otherwise or without
/// a frame.
pub open spec fn presented_bytes(frame: Option<ImageView>, byte_count: nat) -> Seq<u8> {
    match frame {
        Some(f) => if byte_count == f.width * f.height * 4 {
            crate::png::pixels_bytes(f.pixels)
        } else {
            Seq::new(byte_count, |i: int| 0u8)
        },
        None => Seq::new(byte_count, |i: int| 0u8),
    }
}

/// Copies the last completed frame into a presentation surface of RGBA
/// bytes. The surface is cleared first; the frame is copied only when the
/// surface holds exactly four bytes per pixel.
pub fn copy_last_completed_frame(frame: Option<&PixelBuffer>, destination: &mut [u8])
    requires
        frame matches Some(f) ==> f.well_formed() && f@.pixels.len() * 4 <= usize::MAX,
    ensures
        final(destination)@ == presented_bytes(
            match frame {
                Some(f) => Some(f@),
                None => None,
            },
            old(destination)@.len(),
        ),
{
    let len = destination.len();
    let mut i: usize = 0;
    while i < len
        invariant
            len == destination@.len(),
            i <= len,
            forall|j: int| 0 <= j < i ==> destination@[j] == 0u8,
        decreases len - i,
    {
        destination[i] = 0;
        i = i + 1;
    }
    proof {
        assert(destination@ =~= Seq::new(len as nat, |j: int| 0u8));
    }
    let f = match frame {
        Some(f) => f,
        None => {
            return ;
        },
    };
    let count = f.pixels.len();
    proof {
        assert(count as nat == f@.width * f@.height);
    }
    if len != count * 4 {
        return ;
    }
    let mut k: usize = 0;
    while k < count
        invariant
            count == f.pixels@.len(),
            len == destination@.len(),
            len == count * 4,
            k <= count,
            destination@.take(4 * k as int) == crate::png::pixels_bytes(f.pixels@.take(k as int)),
            forall|j: int| 4 * k <= j < len ==> destination@[j] == 0u8,
        decreases count - k,
    {
        let p = f.pixels[k];
        let base = 4 * k;
        destination[base] = p.red;
        destination[base + 1] = p.green;
        destination[base + 2] = p.blue;
        destination[base + 3] = p.alpha;
        proof {
            let t = f.pixels@.take(k + 1);
            assert(t.drop_last() =~= f.pixels@.take(k as int));
            assert(t.last() == p);
            assert(destination@.take(4 * (k + 1)) =~= destination@.take(4 * k as int) + crate::png::pixel_bytes(p));
        }
        k = k + 1;
    }
    proof {
        assert(f.pixels@.take(k as int) =~= f.pixels@);
        assert(destination@.take(4 * k as int) =~= destination@);
    }
}

} // verus!
