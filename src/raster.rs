//! RGB pixels, the palette that maps indices to them, and the decoded image.
use vstd::prelude::*;

verus! {

/// One RGB pixel.
#[derive(Clone, Copy, Debug, PartialEq, Eq, Structural)]
pub struct Rgb {
    pub r: u8,
    pub g: u8,
    pub b: u8,
}

/// The pixel in column `x` of row `y` of the row-major grid `img`, `w` pixels wide.
pub open spec fn pixel_at(img: Seq<Rgb>, w: int, x: int, y: int) -> Rgb {
    img[y * w + x]
}

/// The color of entry `index` of a table of (G, R, B) byte triples.
pub open spec fn grb_color(grb: Seq<u8>, index: int) -> Rgb {
    Rgb { r: grb[index * 3 + 1], g: grb[index * 3], b: grb[index * 3 + 2] }
}

/// The palette table, stored as (G, R, B) byte triples.
pub struct Palette {
    pub grb_colors: Vec<u8>,
}

impl Palette {
    pub fn new(grb_colors: &[u8]) -> (r: Palette)
        ensures
            r.grb_colors@ == grb_colors@,
    {
        Palette { grb_colors: vstd::slice::slice_to_vec(grb_colors) }
    }

    /// The color of entry `index`, reordered from (G, R, B) to (R, G, B).
    pub fn rgb(&self, index: u8) -> (r: Rgb)
        requires
            index as int * 3 + 3 <= self.grb_colors@.len(),
        ensures
            r == grb_color(self.grb_colors@, index as int),
    {
        let i = index as usize * 3;
        let g = self.grb_colors[i];
        let r = self.grb_colors[i + 1];
        let b = self.grb_colors[i + 2];
        Rgb { r, g, b }
    }
}

/// A decoded image: `height` rows of `width` pixels, row-major.
pub struct RgbImage {
    pub width: u32,
    pub height: u32,
    pub pixels: Vec<Rgb>,
}

impl RgbImage {
    pub fn width(&self) -> (r: u32)
        ensures
            r == self.width,
    {
        self.width
    }

    pub fn height(&self) -> (r: u32)
        ensures
            r == self.height,
    {
        self.height
    }

    /// The pixel in column `x` of row `y`.
    pub fn get_pixel(&self, x: u32, y: u32) -> (r: Rgb)
        requires
            x < self.width,
            y < self.height,
            self.pixels@.len() == self.width as int * self.height as int,
        ensures
            r == pixel_at(self.pixels@, self.width as int, x as int, y as int),
    {
        let len = self.pixels.len();
        proof {
            assert((y as int) * (self.width as int) + (x as int) < (self.width as int) * (
            self.height as int)) by (nonlinear_arith)
                requires
                    x < self.width,
                    y < self.height,
            ;
            assert(y * self.width + x < len);
        }
        self.pixels[y as usize * self.width as usize + x as usize]
    }
}

/// The grid `img` of `h` rows of `w` pixels, each row written twice in a row.
pub open spec fn rows_doubled(img: Seq<Rgb>, w: int, h: int, out: Seq<Rgb>) -> bool {
    &&& out.len() == w * (2 * h)
    &&& forall|x: int, y: int|
        0 <= x < w && 0 <= y < 2 * h ==> #[trigger] pixel_at(out, w, x, y) == pixel_at(
            img,
            w,
            x,
            y / 2,
        )
}

/// Rows `2k` and `2k + 1` of a row-doubled grid both equal row `k` of the grid before doubling.
pub proof fn lemma_doubled_row_pair(img: Seq<Rgb>, w: int, h: int, out: Seq<Rgb>, k: int, x: int)
    requires
        rows_doubled(img, w, h, out),
        0 <= k < h,
        0 <= x < w,
    ensures
        pixel_at(out, w, x, 2 * k) == pixel_at(img, w, x, k),
        pixel_at(out, w, x, 2 * k + 1) == pixel_at(img, w, x, k),
{
    assert(pixel_at(out, w, x, 2 * k) == pixel_at(img, w, x, (2 * k) / 2));
    assert(pixel_at(out, w, x, 2 * k + 1) == pixel_at(img, w, x, (2 * k + 1) / 2));
}

/// Nearest-neighbour upscaling to twice the height: every row of `img` appears twice.
pub fn double_rows(img: &Vec<Rgb>, w: usize, h: usize) -> (out: Vec<Rgb>)
    requires
        img@.len() == w * h,
        w * (2 * h) <= usize::MAX,
        2 * h <= usize::MAX,
    ensures
        rows_doubled(img@, w as int, h as int, out@),
{
    let mut out: Vec<Rgb> = Vec::new();
    let mut y: usize = 0;
    while y < 2 * h
        invariant
            img@.len() == w * h,
            w * (2 * h) <= usize::MAX,
            2 * h <= usize::MAX,
            y <= 2 * h,
            out@.len() == y * w,
            forall|xx: int, yy: int|
                0 <= xx < w && 0 <= yy < y ==> #[trigger] pixel_at(out@, w as int, xx, yy)
                    == pixel_at(img@, w as int, xx, yy / 2),
        decreases 2 * h - y,
    {
        let mut x: usize = 0;
        while x < w
            invariant
                img@.len() == w * h,
                w * (2 * h) <= usize::MAX,
                2 * h <= usize::MAX,
                y < 2 * h,
                x <= w,
                out@.len() == y * w + x,
                forall|xx: int, yy: int|
                    0 <= xx < w && 0 <= yy < y ==> #[trigger] pixel_at(out@, w as int, xx, yy)
                        == pixel_at(img@, w as int, xx, yy / 2),
                forall|xx: int| 0 <= xx < x ==> #[trigger] pixel_at(out@, w as int, xx, y as int)
                    == pixel_at(img@, w as int, xx, (y / 2) as int),
            decreases w - x,
        {
            proof {
                assert((y / 2) * w + x < w * h) by (nonlinear_arith)
                    requires
                        y < 2 * h,
                        x < w,
                ;
                assert(y * w + x < w * (2 * h)) by (nonlinear_arith)
                    requires
                        y < 2 * h,
                        x < w,
                ;
            }
            let len = img.len();
            assert((y / 2) * w + x < len);
            let p = img[(y / 2) * w + x];
            let ghost before = out@;
            out.push(p);
            proof {
                assert forall|xx: int, yy: int| 0 <= xx < w && 0 <= yy < y implies #[trigger] pixel_at(
                    out@,
                    w as int,
                    xx,
                    yy,
                ) == pixel_at(img@, w as int, xx, yy / 2) by {
                    assert(yy * w + xx < y * w) by (nonlinear_arith)
                        requires
                            yy < y,
                            xx < w,
                    ;
                    assert(pixel_at(before, w as int, xx, yy) == pixel_at(img@, w as int, xx, yy / 2));
                }
                assert forall|xx: int| 0 <= xx < x + 1 implies #[trigger] pixel_at(
                    out@,
                    w as int,
                    xx,
                    y as int,
                ) == pixel_at(img@, w as int, xx, (y / 2) as int) by {
                    if xx < x {
                        assert(pixel_at(before, w as int, xx, y as int) == pixel_at(img@, w as int, xx, (y / 2) as int));
                    }
                }
            }
            x = x + 1;
        }
        proof {
            assert(out@.len() == (y + 1) * w) by (nonlinear_arith)
                requires
                    out@.len() == y * w + w,
            ;
            assert forall|xx: int, yy: int| 0 <= xx < w && 0 <= yy < y + 1 implies #[trigger] pixel_at(
                out@,
                w as int,
                xx,
                yy,
            ) == pixel_at(img@, w as int, xx, yy / 2) by {
                if yy == y {
                    assert(pixel_at(out@, w as int, xx, y as int) == pixel_at(img@, w as int, xx, (y / 2) as int));
                }
            }
        }
        y = y + 1;
    }
    proof {
        assert(out@.len() == w * (2 * h)) by (nonlinear_arith)
            requires
                out@.len() == y * w,
                y == 2 * h,
        ;
    }
    out
}

} // verus!
