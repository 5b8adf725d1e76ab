//! An image as a grid of pixels, each pixel being the raw bytes that the
//! image stores for it (four bytes for an RGBA8 texture).

use vstd::prelude::*;

verus! {

/// Mathematical model of a [`PixelGrid`]: its size and its pixels in
/// row-major order (the pixel at column `x`, row `y` is at `y * width + x`).
pub struct GridView {
    pub width: nat,
    pub height: nat,
    pub pixels: Seq<Seq<u8>>,
}

impl GridView {
    pub open spec fn in_bounds(self, x: int, y: int) -> bool {
        0 <= x < self.width && 0 <= y < self.height
    }

    /// The bytes of the pixel at column `x`, row `y`.
    pub open spec fn at(self, x: int, y: int) -> Seq<u8> {
        self.pixels[y * self.width + x]
    }

    /// The pixel at `(x, y)` when it lies in the grid.
    pub open spec fn get(self, x: int, y: int) -> Option<Seq<u8>> {
        if self.in_bounds(x, y) {
            Some(self.at(x, y))
        } else {
            None
        }
    }
}

/// A rectangular image, `width` pixels wide and `height` pixels high.
pub struct PixelGrid {
    width: u32,
    height: u32,
    pixels: Vec<Vec<u8>>,
}

impl View for PixelGrid {
    type V = GridView;

    closed spec fn view(&self) -> GridView {
        GridView {
            width: self.width as nat,
            height: self.height as nat,
            pixels: Seq::new(self.pixels@.len(), |i: int| self.pixels@[i]@),
        }
    }
}

proof fn lemma_row_major_index(x: int, y: int, w: int, h: int)
    requires
        0 <= x < w,
        0 <= y < h,
    ensures
        0 <= y * w + x < w * h,
{
    assert(0 <= y * w) by (nonlinear_arith)
        requires
            0 <= y,
            0 <= w,
    ;
    assert(y * w + w <= h * w) by (nonlinear_arith)
        requires
            y + 1 <= h,
            0 <= w,
    ;
    assert(h * w == w * h) by (nonlinear_arith);
}

impl PixelGrid {
    #[verifier::type_invariant]
    spec fn pixel_count_matches(self) -> bool {
        self.pixels@.len() == self.width * self.height
    }

    /// Builds a grid from its pixels in row-major order; `None` when their
    /// number is not `width * height`.
    pub fn new(width: u32, height: u32, pixels: Vec<Vec<u8>>) -> (r: Option<PixelGrid>)
        ensures
            r is Some <==> pixels@.len() == width * height,
            r matches Some(g) ==> g@ == (GridView {
                width: width as nat,
                height: height as nat,
                pixels: Seq::new(pixels@.len(), |i: int| pixels@[i]@),
            }),
    {
        let w: u64 = width as u64;
        let h: u64 = height as u64;
        assert(w * h <= 0xffff_ffff_ffff_ffff) by (nonlinear_arith)
            requires
                w <= 0xffff_ffff,
                h <= 0xffff_ffff,
        ;
        let count: u64 = w * h;
        if pixels.len() as u64 == count {
            Some(PixelGrid { width, height, pixels })
        } else {
            None
        }
    }

    pub fn width(&self) -> (r: u32)
        ensures
            r == self@.width,
    {
        self.width
    }

    pub fn height(&self) -> (r: u32)
        ensures
            r == self@.height,
    {
        self.height
    }

    /// The bytes of the pixel at column `x`, row `y`.
    pub fn pixel(&self, x: u32, y: u32) -> (r: &Vec<u8>)
        requires
            self@.in_bounds(x as int, y as int),
        ensures
            r@ == self@.at(x as int, y as int),
    {
        let pixel_count: usize = self.pixels.len();
        proof {
            use_type_invariant(self);
            assert(pixel_count == self.width * self.height);
            assert(y as int * self.width as int <= y as int * self.width as int + x as int);
            lemma_row_major_index(x as int, y as int, self.width as int, self.height as int);
        }
        let index: usize = y as usize * self.width as usize + x as usize;
        &self.pixels[index]
    }
}

/// The size of a grid fits the `u32` it is stored in.
pub proof fn lemma_grid_size(grid: &PixelGrid)
    ensures
        grid@.width <= u32::MAX,
        grid@.height <= u32::MAX,
{
}

/// An element is in a concatenation exactly when it is in one of its parts.
pub(crate) proof fn lemma_concat_contains<A>(a: Seq<A>, b: Seq<A>, t: A)
    ensures
        (a + b).contains(t) <==> a.contains(t) || b.contains(t),
{
    if a.contains(t) {
        let i = choose|i: int| 0 <= i < a.len() && a[i] == t;
        assert((a + b)[i] == t);
    }
    if b.contains(t) {
        let i = choose|i: int| 0 <= i < b.len() && b[i] == t;
        assert((a + b)[a.len() + i] == t);
    }
    if (a + b).contains(t) {
        let i = choose|i: int| 0 <= i < (a + b).len() && (a + b)[i] == t;
        if i < a.len() {
            assert(a[i] == t);
        } else {
            assert(b[i - a.len()] == t);
        }
    }
}

/// Whether a pixel's bytes are exactly the given RGBA colour.
pub fn is_color(bytes: &Vec<u8>, color: &[u8; 4]) -> (r: bool)
    ensures
        r == (bytes@ == color@),
{
    if bytes.len() != 4 {
        return false;
    }
    let mut i: usize = 0;
    while i < 4
        invariant
            bytes@.len() == 4,
            i <= 4,
            forall|j: int| 0 <= j < i ==> bytes@[j] == color@[j],
        decreases 4 - i,
    {
        if bytes[i] != color[i] {
            return false;
        }
        i = i + 1;
    }
    assert(bytes@ =~= color@);
    true
}

} // verus!
