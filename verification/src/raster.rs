//! An 8-bit RGB raster, stored in an `image::RgbImage`.

use vstd::prelude::*;

verus! {

/// The pixel storage of a raster: an `image::RgbImage`, which the verifier does not look
/// into. What it holds is named by `store_width`, `store_height` and `store_pixels`.
#[verifier::external_body]
pub struct PixelStore {
    inner: image::RgbImage,
}

/// The width that `ImageBuffer::width` reports.
pub uninterp spec fn store_width(s: PixelStore) -> u32;

/// The height that `ImageBuffer::height` reports.
pub uninterp spec fn store_height(s: PixelStore) -> u32;

/// The pixels of the buffer in row-major order: the pixel at `(x, y)` stands at index
/// `y * width + x`. Each is `(red, green, blue)`.
pub uninterp spec fn store_pixels(s: PixelStore) -> Seq<(u8, u8, u8)>;

impl PixelStore {
    /// `ImageBuffer::new`: a buffer of the given dimensions with every channel of every
    /// pixel zero. It allocates `3 * width * height` bytes and panics where that count is
    /// more than a vector can hold, which the precondition leaves out.
    #[verifier::external_body]
    fn zeroed(width: u32, height: u32) -> (s: PixelStore)
        requires
            3 * width * height <= isize::MAX,
        ensures
            store_width(s) == width,
            store_height(s) == height,
            store_pixels(s) == Seq::new((width * height) as nat, |i: int| (0u8, 0u8, 0u8)),
    {
        PixelStore { inner: image::RgbImage::new(width, height) }
    }

    /// `ImageBuffer::width`: the width the buffer was made with.
    #[verifier::external_body]
    fn width(&self) -> (w: u32)
        ensures
            w == store_width(*self),
    {
        self.inner.width()
    }

    /// `ImageBuffer::height`: the height the buffer was made with.
    #[verifier::external_body]
    fn height(&self) -> (h: u32)
        ensures
            h == store_height(*self),
    {
        self.inner.height()
    }

    /// `ImageBuffer::get_pixel`: the pixel at `(x, y)`. It panics outside the bounds,
    /// which the precondition leaves out.
    #[verifier::external_body]
    fn pixel(&self, x: u32, y: u32) -> (p: [u8; 3])
        requires
            x < store_width(*self),
            y < store_height(*self),
        ensures
            (p[0], p[1], p[2]) == store_pixels(*self)[y * store_width(*self) + x],
    {
        self.inner.get_pixel(x, y).0
    }

    /// `ImageBuffer::put_pixel`: replaces the pixel at `(x, y)` and nothing else. It
    /// panics outside the bounds, which the precondition leaves out.
    #[verifier::external_body]
    fn set_pixel(&mut self, x: u32, y: u32, p: [u8; 3])
        requires
            x < store_width(*old(self)),
            y < store_height(*old(self)),
        ensures
            store_width(*final(self)) == store_width(*old(self)),
            store_height(*final(self)) == store_height(*old(self)),
            store_pixels(*final(self)) == store_pixels(*old(self)).update(
                y * store_width(*old(self)) + x,
                (p[0], p[1], p[2]),
            ),
        no_unwind
    {
        self.inner.put_pixel(x, y, image::Rgb(p))
    }
}

/// An RGB raster of known shape: `width * height` pixels in row-major order.
pub struct Raster {
    store: PixelStore,
}

impl View for Raster {
    type V = Seq<(u8, u8, u8)>;

    /// The pixels in row-major order, each as `(red, green, blue)`.
    closed spec fn view(&self) -> Seq<(u8, u8, u8)> {
        store_pixels(self.store)
    }
}

impl Raster {
    #[verifier::type_invariant]
    spec fn well_shaped(self) -> bool {
        &&& 3 * store_width(self.store) * store_height(self.store) <= isize::MAX
        &&& store_pixels(self.store).len() == store_width(self.store) * store_height(
            self.store,
        )
    }

    /// Width in pixels.
    pub closed spec fn spec_width(&self) -> nat {
        store_width(self.store) as nat
    }

    /// Height in pixels.
    pub closed spec fn spec_height(&self) -> nat {
        store_height(self.store) as nat
    }

    /// Linear index of the pixel at `(x, y)` in a raster of the given width.
    pub open spec fn index_of(width: nat, x: int, y: int) -> int {
        y * width + x
    }

    /// A pixel inside the bounds has its linear index inside the pixel sequence.
    pub proof fn lemma_index_in_range(width: nat, height: nat, x: int, y: int)
        requires
            0 <= x < width,
            0 <= y < height,
        ensures
            0 <= Self::index_of(width, x, y) < width * height,
    {
        assert(0 <= y * width && (y + 1) * width <= height * width) by (nonlinear_arith)
            requires
                0 <= y,
                y + 1 <= height,
                0 <= width,
        ;
        assert((y + 1) * width == y * width + width && height * width == width * height)
            by (nonlinear_arith);
    }

    /// The raster that is black everywhere.
    pub open spec fn black(width: nat, height: nat) -> Seq<(u8, u8, u8)> {
        Seq::new(width * height, |i: int| (0u8, 0u8, 0u8))
    }

    /// A black raster of dimensions whose `3 * width * height` bytes can be allocated.
    pub fn blank(width: u32, height: u32) -> (out: Raster)
        requires
            3 * width * height <= isize::MAX,
        ensures
            out.spec_width() == width,
            out.spec_height() == height,
            out@ == Self::black(width as nat, height as nat),
    {
        Raster { store: PixelStore::zeroed(width, height) }
    }

    /// A black raster of the given dimensions, or `None` where its `3 * width * height`
    /// bytes are more than can be allocated.
    pub fn new(width: u32, height: u32) -> (out: Option<Raster>)
        ensures
            out.is_some() <==> 3 * width * height <= isize::MAX,
            out matches Some(r) ==> {
                &&& r.spec_width() == width
                &&& r.spec_height() == height
                &&& r@ == Self::black(width as nat, height as nat)
            },
    {
        assert(width * height <= 0xffff_ffff * 0xffff_ffff) by (nonlinear_arith)
            requires
                0 <= width <= 0xffff_ffff,
                0 <= height <= 0xffff_ffff,
        ;
        let area: u128 = (width as u128) * (height as u128);
        let bytes: u128 = 3 * area;
        assert(bytes == 3 * width * height) by (nonlinear_arith)
            requires
                bytes == 3 * (width * height),
        ;
        if bytes <= isize::MAX as u128 {
            Some(Self::blank(width, height))
        } else {
            None
        }
    }

    /// Width in pixels.
    pub fn width(&self) -> (w: u32)
        ensures
            w == self.spec_width(),
    {
        self.store.width()
    }

    /// Height in pixels.
    pub fn height(&self) -> (h: u32)
        ensures
            h == self.spec_height(),
    {
        self.store.height()
    }

    /// Number of pixels, which is the product of the dimensions.
    pub fn pixel_count(&self) -> (n: usize)
        ensures
            n == self@.len(),
            n == self.spec_width() * self.spec_height(),
            3 * n <= isize::MAX,
    {
        proof {
            use_type_invariant(self);
        }
        let w: u32 = self.store.width();
        let h: u32 = self.store.height();
        assert(3 * (w * h) == 3 * w * h) by (nonlinear_arith);
        (w as usize) * (h as usize)
    }

    /// The pixel at `(x, y)` inside the raster, as `[red, green, blue]`.
    pub fn pixel_at(&self, x: u32, y: u32) -> (p: [u8; 3])
        requires
            x < self.spec_width(),
            y < self.spec_height(),
        ensures
            (p[0], p[1], p[2]) == self@[Self::index_of(self.spec_width(), x as int, y as int)],
    {
        self.store.pixel(x, y)
    }

    /// Writes the pixel at `(x, y)` inside the raster; every other pixel stays.
    pub fn set_pixel_at(&mut self, x: u32, y: u32, p: [u8; 3])
        requires
            x < old(self).spec_width(),
            y < old(self).spec_height(),
        ensures
            final(self).spec_width() == old(self).spec_width(),
            final(self).spec_height() == old(self).spec_height(),
            final(self)@ == old(self)@.update(
                Self::index_of(old(self).spec_width(), x as int, y as int),
                (p[0], p[1], p[2]),
            ),
    {
        proof {
            use_type_invariant(&*self);
            Self::lemma_index_in_range(self.spec_width(), self.spec_height(), x as int, y as int);
        }
        self.store.set_pixel(x, y, p);
    }

    /// The pixel at `(x, y)` as `[red, green, blue]`, or `None` outside the raster.
    pub fn get_pixel(&self, x: u32, y: u32) -> (out: Option<[u8; 3]>)
        ensures
            out.is_some() <==> x < self.spec_width() && y < self.spec_height(),
            out matches Some(p) ==> (p[0], p[1], p[2]) == self@[Self::index_of(
                self.spec_width(),
                x as int,
                y as int,
            )],
    {
        if x < self.store.width() && y < self.store.height() {
            Some(self.pixel_at(x, y))
        } else {
            None
        }
    }

    /// Writes the pixel at `(x, y)` and returns `true`; outside the raster it changes
    /// nothing and returns `false`.
    pub fn put_pixel(&mut self, x: u32, y: u32, p: [u8; 3]) -> (done: bool)
        ensures
            final(self).spec_width() == old(self).spec_width(),
            final(self).spec_height() == old(self).spec_height(),
            done <==> x < old(self).spec_width() && y < old(self).spec_height(),
            done ==> final(self)@ == old(self)@.update(
                Self::index_of(old(self).spec_width(), x as int, y as int),
                (p[0], p[1], p[2]),
            ),
            !done ==> final(self)@ == old(self)@,
    {
        if x < self.store.width() && y < self.store.height() {
            self.set_pixel_at(x, y, p);
            true
        } else {
            false
        }
    }
}

} // verus!
