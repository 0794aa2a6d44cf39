//! Pixels and a row-major pixel buffer.
use vstd::arithmetic::div_mod::lemma_fundamental_div_mod_converse;
use vstd::prelude::*;

verus! {

/// A pixel, its channels laid out so that the pixel reads as the `u32`
/// `0xAARRGGBB` on a little-endian machine.
#[derive(Debug, Clone, Copy, PartialEq, Eq, Structural)]
pub struct Rgba {
    pub b: u8,
    pub g: u8,
    pub r: u8,
    pub a: u8,
}

impl Rgba {
    /// Opaque black.
    pub fn black() -> (p: Rgba)
        ensures
            p == (Rgba { r: 0, g: 0, b: 0, a: 255 }),
    {
        Rgba::new(0, 0, 0, 255)
    }

    /// Opaque white.
    pub fn white() -> (p: Rgba)
        ensures
            p == (Rgba { r: 255, g: 255, b: 255, a: 255 }),
    {
        Rgba::new(255, 255, 255, 255)
    }

    pub fn new(r: u8, g: u8, b: u8, a: u8) -> (p: Rgba)
        ensures
            p == (Rgba { r, g, b, a }),
    {
        Rgba { r, g, b, a }
    }

    /// The pixel whose red, green, blue and alpha are the bytes of `val` from
    /// the least significant up.
    pub fn from_u32_rgba(val: u32) -> (p: Rgba)
        ensures
            p.r == val % 0x100,
            p.g == val / 0x100 % 0x100,
            p.b == val / 0x1_0000 % 0x100,
            p.a == val / 0x100_0000,
    {
        Rgba {
            r: (val % 0x100) as u8,
            g: (val / 0x100 % 0x100) as u8,
            b: (val / 0x1_0000 % 0x100) as u8,
            a: (val / 0x100_0000) as u8,
        }
    }
}

/// The `u32` `0xAARRGGBB` of a pixel.
pub open spec fn packed(p: Rgba) -> nat {
    (p.a * 0x100_0000 + p.r * 0x1_0000 + p.g * 0x100 + p.b) as nat
}

impl From<u32> for Rgba {
    /// Reads `value` as `0xAARRGGBB`.
    fn from(value: u32) -> (p: Rgba) {
        Rgba {
            b: (value % 0x100) as u8,
            g: (value / 0x100 % 0x100) as u8,
            r: (value / 0x1_0000 % 0x100) as u8,
            a: (value / 0x100_0000) as u8,
        }
    }
}

impl vstd::std_specs::convert::FromSpecImpl<u32> for Rgba {
    open spec fn obeys_from_spec() -> bool {
        true
    }

    open spec fn from_spec(value: u32) -> Rgba {
        Rgba {
            b: (value % 0x100) as u8,
            g: (value / 0x100 % 0x100) as u8,
            r: (value / 0x1_0000 % 0x100) as u8,
            a: (value / 0x100_0000) as u8,
        }
    }
}

/// A `width` by `height` grid of pixels, stored row by row.
pub struct Buffer {
    pixels: Vec<Rgba>,
    width: usize,
    height: usize,
}

/// Position `i` of a row-major grid `width` wide holds the pixel at
/// `(i % width, i / width)`.
proof fn lemma_grid_index(width: nat, x: nat, y: nat)
    requires
        x < width,
    ensures
        (y * width + x) % width == x,
        (y * width + x) / width == y,
{
    lemma_fundamental_div_mod_converse((y * width + x) as int, width as int, y as int, x as int);
}

proof fn lemma_grid_bound(width: nat, height: nat, x: nat, y: nat)
    requires
        x < width,
        y < height,
    ensures
        y * width + x < width * height,
{
    assert(y * width + x < width * height) by (nonlinear_arith)
        requires
            x < width,
            y < height,
    ;
}

impl Buffer {
    pub closed spec fn spec_width(&self) -> nat {
        self.width as nat
    }

    pub closed spec fn spec_height(&self) -> nat {
        self.height as nat
    }

    /// The pixels, row by row.
    pub closed spec fn pixels(&self) -> Seq<Rgba> {
        self.pixels@
    }

    /// There is one pixel for each position of the grid.
    pub open spec fn well_formed(&self) -> bool {
        self.pixels().len() == self.spec_width() * self.spec_height()
    }

    /// The pixel at column `x` of row `y`.
    pub open spec fn pixel_at(&self, x: int, y: int) -> Rgba {
        self.pixels()[y * self.spec_width() + x]
    }

    /// Whether `pixels` holds, at each position of a `width` by `height`
    /// grid, a pixel that `cb` may return for that position.
    pub open spec fn filled_by<F: FnMut(usize, usize) -> Rgba>(
        pixels: Seq<Rgba>,
        width: nat,
        height: nat,
        cb: F,
    ) -> bool {
        &&& pixels.len() == width * height
        &&& forall|x: int, y: int|
            0 <= x < width && 0 <= y < height ==> call_ensures(
                cb,
                (x as usize, y as usize),
                #[trigger] pixels[y * width + x],
            )
    }

    /// Pushes onto the empty `pixels` those of a `width` by `height` grid, row
    /// by row, each from `cb`.
    fn fill<F: FnMut(usize, usize) -> Rgba>(
        pixels: &mut Vec<Rgba>,
        width: usize,
        height: usize,
        mut cb: F,
    )
        requires
            old(pixels)@.len() == 0,
            width * height <= usize::MAX,
            forall|x: usize, y: usize| x < width && y < height ==> call_requires(cb, (x, y)),
        ensures
            Buffer::filled_by(final(pixels)@, width as nat, height as nat, cb),
    {
        let ghost f = cb;
        let mut y: usize = 0;
        while y < height
            invariant
                cb == f,
                width * height <= usize::MAX,
                forall|x: usize, y: usize| x < width && y < height ==> call_requires(cb, (x, y)),
                y <= height,
                pixels@.len() == y * width,
                forall|i: int|
                    0 <= i < pixels@.len() ==> call_ensures(
                        cb,
                        ((i % width as int) as usize, (i / width as int) as usize),
                        #[trigger] pixels@[i],
                    ),
            decreases height - y,
        {
            let mut x: usize = 0;
            while x < width
                invariant
                    cb == f,
                    width * height <= usize::MAX,
                    forall|x: usize, y: usize| x < width && y < height ==> call_requires(cb, (x, y)),
                    y < height,
                    x <= width,
                    pixels@.len() == y * width + x,
                    forall|i: int|
                        0 <= i < pixels@.len() ==> call_ensures(
                            cb,
                            ((i % width as int) as usize, (i / width as int) as usize),
                            #[trigger] pixels@[i],
                        ),
                decreases width - x,
            {
                let p = cb(x, y);
                proof {
                    lemma_grid_index(width as nat, x as nat, y as nat);
                }
                pixels.push(p);
                x += 1;
            }
            proof {
                assert((y + 1) * width == y * width + width) by (nonlinear_arith);
            }
            y += 1;
        }
        proof {
            assert forall|x: int, y: int| 0 <= x < width && 0 <= y < height implies call_ensures(
                cb,
                (x as usize, y as usize),
                #[trigger] pixels@[y * width + x],
            ) by {
                lemma_grid_index(width as nat, x as nat, y as nat);
                lemma_grid_bound(width as nat, height as nat, x as nat, y as nat);
                let i = y * width + x;
                assert(i < pixels@.len()) by (nonlinear_arith)
                    requires
                        i < width * height,
                        pixels@.len() == height * width,
                ;
                assert(call_ensures(
                    cb,
                    ((i % width as int) as usize, (i / width as int) as usize),
                    pixels@[i],
                ));
            }
            assert(pixels@.len() == width * height) by (nonlinear_arith)
                requires
                    pixels@.len() == height * width,
            ;
        }
    }

    /// A grid filled by a callback that returns one value alone holds that
    /// value everywhere.
    pub proof fn lemma_filled_uniform<F: FnMut(usize, usize) -> Rgba>(
        pixels: Seq<Rgba>,
        width: nat,
        height: nat,
        cb: F,
        value: Rgba,
    )
        requires
            Buffer::filled_by(pixels, width, height, cb),
            forall|x: usize, y: usize, p: Rgba| call_ensures(cb, (x, y), p) ==> p == value,
        ensures
            forall|i: int| 0 <= i < pixels.len() ==> pixels[i] == value,
    {
        assert forall|i: int| 0 <= i < pixels.len() implies pixels[i] == value by {
            let w = width as int;
            let x = i % w;
            let y = i / w;
            assert(i < w * height);
            assert(w > 0) by (nonlinear_arith)
                requires
                    0 <= i < w * height,
                    w >= 0,
                    height >= 0,
            ;
            vstd::arithmetic::div_mod::lemma_fundamental_div_mod(i, w);
            assert(0 <= x < w);
            assert(0 <= y < height) by (nonlinear_arith)
                requires
                    i == w * y + x,
                    0 <= x < w,
                    0 <= i < w * height,
                    w > 0,
            ;
            assert(i == y * w + x) by (nonlinear_arith)
                requires
                    i == w * y + x,
            ;
            assert(call_ensures(cb, (x as usize, y as usize), pixels[y * w + x]));
        }
    }

    /// A buffer whose pixel at each `(x, y)` is `cb(x, y)`, filled row by row.
    pub fn new_with<F: FnMut(usize, usize) -> Rgba>(width: usize, height: usize, cb: F) -> (buf: Buffer)
        requires
            width * height <= usize::MAX,
            forall|x: usize, y: usize| x < width && y < height ==> call_requires(cb, (x, y)),
        ensures
            buf.well_formed(),
            buf.spec_width() == width,
            buf.spec_height() == height,
            Buffer::filled_by(buf.pixels(), width as nat, height as nat, cb),
    {
        let mut pixels: Vec<Rgba> = Vec::new();
        Buffer::fill(&mut pixels, width, height, cb);
        Buffer { pixels, width, height }
    }

    /// A buffer with every pixel set to `fill`.
    pub fn new(width: usize, height: usize, fill: Rgba) -> (buf: Buffer)
        requires
            width * height <= usize::MAX,
        ensures
            buf.well_formed(),
            buf.spec_width() == width,
            buf.spec_height() == height,
            forall|i: int| 0 <= i < buf.pixels().len() ==> buf.pixels()[i] == fill,
    {
        let constant = |x: usize, y: usize| -> (p: Rgba)
            ensures
                p == fill,
            { fill };
        let buf = Buffer::new_with(width, height, constant);
        proof {
            Buffer::lemma_filled_uniform(buf.pixels(), width as nat, height as nat, constant, fill);
        }
        buf
    }

    /// The pixels, row by row.
    pub fn inner_buf(&self) -> (r: &[Rgba])
        ensures
            r@ == self.pixels(),
    {
        self.pixels.as_slice()
    }

    /// The pixels, row by row, to change in place.
    pub fn inner_buf_mut(&mut self) -> (r: &mut [Rgba])
        ensures
            r@ == old(self).pixels(),
            final(self).pixels() == final(r)@,
            final(self).spec_width() == old(self).spec_width(),
            final(self).spec_height() == old(self).spec_height(),
    {
        self.pixels.as_mut_slice()
    }

    /// The width and the height.
    pub fn dimensions(&self) -> (r: (usize, usize))
        ensures
            r == (self.spec_width() as usize, self.spec_height() as usize),
    {
        (self.width, self.height)
    }

    pub fn width(&self) -> (w: usize)
        ensures
            w == self.spec_width(),
    {
        self.width
    }

    pub fn height(&self) -> (h: usize)
        ensures
            h == self.spec_height(),
    {
        self.height
    }

    /// Where the pixel at `(x, y)` is stored.
    fn index_of(&self, x: usize, y: usize) -> (i: usize)
        requires
            self.well_formed(),
            x < self.spec_width(),
            y < self.spec_height(),
        ensures
            i == y * self.spec_width() + x,
            i < self.pixels().len(),
    {
        let len = self.pixels.len();
        proof {
            lemma_grid_bound(self.width as nat, self.height as nat, x as nat, y as nat);
            assert(y * self.width + x < len);
        }
        y * self.width + x
    }

    /// The pixel at `(x, y)`, or `None` outside the grid.
    pub fn get(&self, x: usize, y: usize) -> (r: Option<Rgba>)
        requires
            self.well_formed(),
        ensures
            r == (if x < self.spec_width() && y < self.spec_height() {
                Some(self.pixel_at(x as int, y as int))
            } else {
                None
            }),
    {
        if x >= self.width || y >= self.height {
            return None;
        }
        Some(self.pixels[self.index_of(x, y)])
    }

    /// The pixel at `(x, y)` to change in place, or `None` outside the grid.
    pub fn get_mut(&mut self, x: usize, y: usize) -> (r: Option<&mut Rgba>)
        requires
            old(self).well_formed(),
        ensures
            final(self).spec_width() == old(self).spec_width(),
            final(self).spec_height() == old(self).spec_height(),
            match r {
                Some(p) => {
                    &&& x < old(self).spec_width() && y < old(self).spec_height()
                    &&& *p == old(self).pixel_at(x as int, y as int)
                    &&& final(self).pixels() == old(self).pixels().update(
                        y * old(self).spec_width() + x,
                        *final(p),
                    )
                },
                None => {
                    &&& !(x < old(self).spec_width() && y < old(self).spec_height())
                    &&& final(self).pixels() == old(self).pixels()
                },
            },
    {
        if x >= self.width || y >= self.height {
            return None;
        }
        let i = self.index_of(x, y);
        Some(&mut self.pixels[i])
    }

    /// Sets the pixel at `(x, y)`, which must lie in the grid.
    pub fn set(&mut self, x: usize, y: usize, value: Rgba)
        requires
            old(self).well_formed(),
            x < old(self).spec_width(),
            y < old(self).spec_height(),
        ensures
            final(self).well_formed(),
            final(self).spec_width() == old(self).spec_width(),
            final(self).spec_height() == old(self).spec_height(),
            final(self).pixels() == old(self).pixels().update(
                y * old(self).spec_width() + x,
                value,
            ),
    {
        proof {
            lemma_grid_bound(self.width as nat, self.height as nat, x as nat, y as nat);
        }
        if let Some(pixel) = self.get_mut(x, y) {
            *pixel = value;
        }
    }

    /// The pixels in row order.
    pub fn iter(&self) -> (r: std::slice::Iter<'_, Rgba>)
        ensures
            vstd::std_specs::slice::into_iter_elts(r) == self.pixels(),
    {
        self.pixels.iter()
    }

    /// The pixels in row order, to change in place.
    pub fn iter_mut(&mut self) -> (r: &mut [Rgba])
        ensures
            r@ == old(self).pixels(),
            final(self).pixels() == final(r)@,
            final(self).spec_width() == old(self).spec_width(),
            final(self).spec_height() == old(self).spec_height(),
    {
        self.pixels.as_mut_slice()
    }

    /// Every pixel with its column and row, in row order.
    pub fn iter_pos(&self) -> (r: Vec<(usize, usize, Rgba)>)
        requires
            self.well_formed(),
        ensures
            r@.len() == self.pixels().len(),
            forall|i: int|
                0 <= i < r@.len() ==> #[trigger] r@[i] == (
                    (i % self.spec_width() as int) as usize,
                    (i / self.spec_width() as int) as usize,
                    self.pixels()[i],
                ),
    {
        let width = self.width;
        let height = self.height;
        let len = self.pixels.len();
        let mut out: Vec<(usize, usize, Rgba)> = Vec::new();
        let mut i: usize = 0;
        let mut y: usize = 0;
        while y < height
            invariant
                self.well_formed(),
                width == self.spec_width(),
                height == self.spec_height(),
                len == self.pixels().len(),
                y <= height,
                i == y * width,
                out@.len() == i,
                forall|j: int|
                    0 <= j < i ==> #[trigger] out@[j] == (
                        (j % width as int) as usize,
                        (j / width as int) as usize,
                        self.pixels()[j],
                    ),
            decreases height - y,
        {
            let mut x: usize = 0;
            while x < width
                invariant
                    self.well_formed(),
                    width == self.spec_width(),
                    height == self.spec_height(),
                    len == self.pixels().len(),
                    y < height,
                    x <= width,
                    i == y * width + x,
                    out@.len() == i,
                    forall|j: int|
                        0 <= j < i ==> #[trigger] out@[j] == (
                            (j % width as int) as usize,
                            (j / width as int) as usize,
                            self.pixels()[j],
                        ),
                decreases width - x,
            {
                proof {
                    lemma_grid_index(width as nat, x as nat, y as nat);
                    lemma_grid_bound(width as nat, height as nat, x as nat, y as nat);
                    assert(i < len) by (nonlinear_arith)
                        requires
                            i < width * height,
                            len == width * height,
                    ;
                }
                out.push((x, y, self.pixels[i]));
                x += 1;
                i += 1;
            }
            proof {
                assert((y + 1) * width == y * width + width) by (nonlinear_arith);
            }
            y += 1;
        }
        proof {
            assert(i == len) by (nonlinear_arith)
                requires
                    i == height * width,
                    len == width * height,
            ;
        }
        out
    }

    /// Resizes the buffer to `width` by `height` and refills every pixel from
    /// `cb`, row by row; a buffer that already has those dimensions is left
    /// as it is.
    pub fn resize_and_fill<F: FnMut(usize, usize) -> Rgba>(
        &mut self,
        width: usize,
        height: usize,
        cb: F,
    )
        requires
            width * height <= usize::MAX,
            forall|x: usize, y: usize| x < width && y < height ==> call_requires(cb, (x, y)),
        ensures
            old(self).spec_width() == width && old(self).spec_height() == height ==> *final(self)
                == *old(self),
            !(old(self).spec_width() == width && old(self).spec_height() == height) ==> {
                &&& final(self).well_formed()
                &&& final(self).spec_width() == width
                &&& final(self).spec_height() == height
                &&& Buffer::filled_by(final(self).pixels(), width as nat, height as nat, cb)
            },
    {
        if self.width == width && self.height == height {
            return ;
        }
        self.pixels.clear();
        Buffer::fill(&mut self.pixels, width, height, cb);
        self.width = width;
        self.height = height;
    }

    /// Resizes the buffer to `width` by `height`, every pixel black; a buffer
    /// that already has those dimensions is left as it is.
    pub fn resize(&mut self, width: usize, height: usize)
        requires
            width * height <= usize::MAX,
        ensures
            old(self).spec_width() == width && old(self).spec_height() == height ==> *final(self)
                == *old(self),
            !(old(self).spec_width() == width && old(self).spec_height() == height) ==> {
                &&& final(self).well_formed()
                &&& final(self).spec_width() == width
                &&& final(self).spec_height() == height
                &&& forall|i: int|
                    0 <= i < final(self).pixels().len() ==> final(self).pixels()[i] == (Rgba {
                        r: 0,
                        g: 0,
                        b: 0,
                        a: 255,
                    })
            },
    {
        let black = |x: usize, y: usize| -> (p: Rgba)
            ensures
                p == (Rgba { r: 0, g: 0, b: 0, a: 255 }),
            { Rgba::black() };
        self.resize_and_fill(width, height, black);
        proof {
            if !(old(self).spec_width() == width && old(self).spec_height() == height) {
                Buffer::lemma_filled_uniform(
                    self.pixels(),
                    width as nat,
                    height as nat,
                    black,
                    Rgba { r: 0, g: 0, b: 0, a: 255 },
                );
            }
        }
    }

    /// Every pixel as the `u32` `0xAARRGGBB`, in row order.
    pub fn as_rgba(&self) -> (r: Vec<u32>)
        ensures
            r@.len() == self.pixels().len(),
            forall|i: int| 0 <= i < r@.len() ==> r@[i] == packed(#[trigger] self.pixels()[i]),
    {
        let mut out: Vec<u32> = Vec::new();
        let mut i: usize = 0;
        while i < self.pixels.len()
            invariant
                i <= self.pixels().len(),
                out@.len() == i,
                forall|j: int| 0 <= j < i ==> out@[j] == packed(#[trigger] self.pixels()[j]),
            decreases self.pixels().len() - i,
        {
            let p = self.pixels[i];
            out.push((p.a as u32) * 0x100_0000 + (p.r as u32) * 0x1_0000 + (p.g as u32) * 0x100
                + p.b as u32);
            i += 1;
        }
        out
    }
}

} // verus!
