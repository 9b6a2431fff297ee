use vstd::prelude::*;
use crate::ppm::{
    ascii_pixels, ascii_ppm, binary_pixels, binary_ppm, lemma_raster_in_bounds, ppm_header,
    push_ascii_line, push_ppm_header, raster_pixel, MAGIC_ASCII, MAGIC_BINARY,
};

verus! {

/// An sRGB-encoded pixel: red, green and blue bytes.
pub type Rgb = [u8; 3];

/// What a buffer holds, mathematically: its size and its pixels, stored
/// column by column (the pixel at column `x`, row `y` sits at `x * height + y`).
pub struct BufferView {
    pub width: nat,
    pub height: nat,
    pub pixels: Seq<Rgb>,
}

impl BufferView {
    /// Where the pixel at column `x`, row `y` is stored.
    pub open spec fn lin(self, x: int, y: int) -> int {
        x * self.height + y
    }

    /// The pixel at column `x`, row `y`.
    pub open spec fn pixel(self, x: int, y: int) -> Rgb {
        self.pixels[self.lin(x, y)]
    }
}

/// A `width` by `height` image of sRGB pixels.
#[derive(Debug)]
pub struct Buffer {
    width: u32,
    height: u32,
    data: Vec<Rgb>,
}

impl View for Buffer {
    type V = BufferView;

    closed spec fn view(&self) -> BufferView {
        BufferView { width: self.width as nat, height: self.height as nat, pixels: self.data@ }
    }
}

impl Buffer {
    /// Every pixel is stored, and every linear index fits in a `u32`.
    pub open spec fn wf(&self) -> bool {
        &&& self@.pixels.len() == self@.width * self@.height
        &&& self@.width * self@.height <= u32::MAX
    }

    /// A black buffer of the given size.
    pub fn new(width: u32, height: u32) -> (r: Buffer)
        requires
            width * height <= u32::MAX,
        ensures
            r.wf(),
            r@.width == width,
            r@.height == height,
            forall|i: int| 0 <= i < r@.pixels.len() ==> r@.pixels[i] == [0u8, 0u8, 0u8],
    {
        let n: u32 = width * height;
        let black: Rgb = [0u8, 0u8, 0u8];
        Buffer { width, height, data: vec![black; n as usize] }
    }

    pub fn width(&self) -> (r: u32)
        ensures
            r == self@.width,
    {
        self.width
    }

    pub fn height(&self) -> (r: u32)
        ensures
            r == self@.height,
    {
        self.height
    }

    /// The linear index of the pixel at column `x`, row `y`, in a buffer of
    /// the given height.
    pub fn cart_to_lin(height: u32, x: u32, y: u32) -> (r: u32)
        requires
            x * height + y <= u32::MAX,
        ensures
            r == x * height + y,
    {
        proof {
            lemma_product_fits(x, height, y);
        }
        x * height + y
    }

    /// The column and row of a linear index, in a buffer of the given height.
    pub fn lin_to_cart(height: u32, idx: u32) -> (r: (u32, u32))
        requires
            height > 0,
        ensures
            r == (idx / height, idx % height),
            r.0 * height + r.1 == idx,
    {
        let r = (idx / height, idx % height);
        proof {
            vstd::arithmetic::div_mod::lemma_fundamental_div_mod(idx as int, height as int);
            vstd::arithmetic::mul::lemma_mul_is_commutative(height as int, (idx / height) as int);
        }
        r
    }

    pub fn get(&self, x: u32, y: u32) -> (r: Rgb)
        requires
            self.wf(),
            x < self@.width,
            y < self@.height,
        ensures
            r == self@.pixel(x as int, y as int),
    {
        proof {
            lemma_index_in_bounds(x as int, y as int, self.width as int, self.height as int);
        }
        self.data[Self::cart_to_lin(self.height, x, y) as usize]
    }

    pub fn get_lin(&self, idx: u32) -> (r: Rgb)
        requires
            self.wf(),
            idx < self@.pixels.len(),
        ensures
            r == self@.pixels[idx as int],
    {
        self.data[idx as usize]
    }

    /// A handle on the pixel at column `x`, row `y`; what is written through
    /// it becomes that pixel, and nothing else changes.
    pub fn get_mut(&mut self, x: u32, y: u32) -> (r: &mut Rgb)
        requires
            old(self).wf(),
            x < old(self)@.width,
            y < old(self)@.height,
        ensures
            *r == old(self)@.pixel(x as int, y as int),
            final(self)@ == (BufferView {
                pixels: old(self)@.pixels.update(old(self)@.lin(x as int, y as int), *final(r)),
                ..old(self)@
            }),
    {
        proof {
            lemma_index_in_bounds(x as int, y as int, self.width as int, self.height as int);
        }
        let idx = Self::cart_to_lin(self.height, x, y);
        &mut self.data[idx as usize]
    }

    /// A handle on the pixel at a linear index.
    pub fn get_lin_mut(&mut self, idx: u32) -> (r: &mut Rgb)
        requires
            old(self).wf(),
            idx < old(self)@.pixels.len(),
        ensures
            *r == old(self)@.pixels[idx as int],
            final(self)@ == (BufferView {
                pixels: old(self)@.pixels.update(idx as int, *final(r)),
                ..old(self)@
            }),
    {
        &mut self.data[idx as usize]
    }

    /// Sets every pixel to what `f` gives for its column and row, visiting
    /// the pixels in storage order.
    pub fn fill_with<F: Fn(u32, u32) -> Rgb>(&mut self, f: F)
        requires
            old(self).wf(),
            forall|x: u32, y: u32|
                x < old(self)@.width && y < old(self)@.height ==> #[trigger] f.requires((x, y)),
        ensures
            final(self).wf(),
            final(self)@.width == old(self)@.width,
            final(self)@.height == old(self)@.height,
            forall|x: u32, y: u32|
                x < old(self)@.width && y < old(self)@.height ==> f.ensures(
                    (x, y),
                    #[trigger] final(self)@.pixel(x as int, y as int),
                ),
    {
        let n: u32 = self.width * self.height;
        let mut idx: u32 = 0;
        while idx < n
            invariant
                self.wf(),
                self@.width == old(self)@.width,
                self@.height == old(self)@.height,
                n == self@.width * self@.height,
                idx <= n,
                forall|x: u32, y: u32|
                    x < self@.width && y < self@.height ==> #[trigger] f.requires((x, y)),
                forall|x: u32, y: u32|
                    x < self@.width && y < self@.height && self@.lin(x as int, y as int) < idx
                        ==> f.ensures((x, y), #[trigger] self@.pixel(x as int, y as int)),
            decreases n - idx,
        {
            proof {
                let (w, h) = (self.width as int, self.height as int);
                if h == 0 {
                    assert(w * h == 0) by (nonlinear_arith)
                        requires
                            h == 0,
                    ;
                }
            }
            let (x, y) = Self::lin_to_cart(self.height, idx);
            proof {
                vstd::arithmetic::div_mod::lemma_mod_bound(idx as int, self.height as int);
                lemma_cart_in_bounds(x as int, y as int, self.width as int, self.height as int, idx as int);
            }
            let p = f(x, y);
            let ghost before = self@;
            self.data.set(idx as usize, p);
            proof {
                assert forall|x1: u32, y1: u32|
                    x1 < self@.width && y1 < self@.height && self@.lin(x1 as int, y1 as int) < idx + 1
                        implies f.ensures((x1, y1), #[trigger] self@.pixel(x1 as int, y1 as int)) by {
                    lemma_index_in_bounds(x1 as int, y1 as int, self.width as int, self.height as int);
                    if self@.lin(x1 as int, y1 as int) == idx as int {
                        lemma_lin_injective(x1 as int, y1 as int, x as int, y as int, self.height as int);
                    } else {
                        assert(self@.pixel(x1 as int, y1 as int) == before.pixel(x1 as int, y1 as int));
                    }
                }
            }
            idx = idx + 1;
        }
        proof {
            assert forall|x: u32, y: u32|
                x < old(self)@.width && y < old(self)@.height implies f.ensures(
                (x, y),
                #[trigger] self@.pixel(x as int, y as int),
            ) by {
                lemma_index_in_bounds(x as int, y as int, self.width as int, self.height as int);
            }
        }
    }

    /// The pixel with raster index `k` (row by row from the top, each row
    /// from the left).
    fn get_raster(&self, k: u32) -> (r: Rgb)
        requires
            self.wf(),
            k < self@.width * self@.height,
        ensures
            r == raster_pixel(self@, k as int),
    {
        proof {
            lemma_raster_in_bounds(k as int, self.width as int, self.height as int);
        }
        self.get(k % self.width, k / self.width)
    }

    /// Appends the buffer as a binary (P6) PPM file.
    pub fn write_binary_ppm(&self, out: &mut Vec<u8>)
        requires
            self.wf(),
        ensures
            final(out)@ == old(out)@ + binary_ppm(self@),
    {
        push_ppm_header(out, MAGIC_BINARY, self.width, self.height);
        let ghost head = out@;
        let n: u32 = self.width * self.height;
        let mut k: u32 = 0;
        while k < n
            invariant
                self.wf(),
                n == self@.width * self@.height,
                k <= n,
                head == old(out)@ + ppm_header(MAGIC_BINARY, self@),
                out@ == head + binary_pixels(self@, k as nat),
            decreases n - k,
        {
            let p = self.get_raster(k);
            out.push(p[0]);
            out.push(p[1]);
            out.push(p[2]);
            k = k + 1;
            proof {
                assert(out@ =~= head + binary_pixels(self@, k as nat));
            }
        }
        proof {
            assert(out@ =~= old(out)@ + binary_ppm(self@));
        }
    }

    /// Appends the buffer as an ASCII (P3) PPM file.
    pub fn write_ascii_ppm(&self, out: &mut Vec<u8>)
        requires
            self.wf(),
        ensures
            final(out)@ == old(out)@ + ascii_ppm(self@),
    {
        push_ppm_header(out, MAGIC_ASCII, self.width, self.height);
        let ghost head = out@;
        let n: u32 = self.width * self.height;
        let mut k: u32 = 0;
        while k < n
            invariant
                self.wf(),
                n == self@.width * self@.height,
                k <= n,
                head == old(out)@ + ppm_header(MAGIC_ASCII, self@),
                out@ == head + ascii_pixels(self@, k as nat),
            decreases n - k,
        {
            let p = self.get_raster(k);
            push_ascii_line(out, p);
            k = k + 1;
            proof {
                assert(out@ =~= head + ascii_pixels(self@, k as nat));
            }
        }
        proof {
            assert(out@ =~= old(out)@ + ascii_ppm(self@));
        }
    }
}

proof fn lemma_product_fits(x: u32, h: u32, y: u32)
    requires
        x * h + y <= u32::MAX,
    ensures
        x * h <= u32::MAX,
{
}

/// A linear index inside the buffer names a column inside it.
proof fn lemma_cart_in_bounds(x: int, y: int, w: int, h: int, idx: int)
    requires
        0 <= idx < w * h,
        0 <= x,
        0 <= y < h,
        x * h + y == idx,
    ensures
        x < w,
{
    vstd::arithmetic::mul::lemma_mul_strict_inequality_converse(x, w, h);
}

/// Two cells of one column height with the same linear index are the same.
proof fn lemma_lin_injective(x1: int, y1: int, x2: int, y2: int, h: int)
    requires
        0 <= y1 < h,
        0 <= y2 < h,
        0 <= x1,
        0 <= x2,
        x1 * h + y1 == x2 * h + y2,
    ensures
        x1 == x2,
        y1 == y2,
{
    vstd::arithmetic::div_mod::lemma_fundamental_div_mod_converse(x1 * h + y1, h, x1, y1);
    vstd::arithmetic::div_mod::lemma_fundamental_div_mod_converse(x2 * h + y2, h, x2, y2);
}

/// A pixel inside the buffer has a linear index inside it.
proof fn lemma_index_in_bounds(x: int, y: int, w: int, h: int)
    requires
        0 <= x < w,
        0 <= y < h,
    ensures
        0 <= x * h + y < w * h,
{
    assert(0 <= x * h + y < w * h) by (nonlinear_arith)
        requires
            0 <= x < w,
            0 <= y < h,
    ;
}

} // verus!
