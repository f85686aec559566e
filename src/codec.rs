//! The flag-driven decompression: per-column flag bytes carried from row to row,
//! literal runs read from the pixel stream, and back-reference copies within the image.
use vstd::prelude::*;

use crate::error::{Error, Fault, fault_error};
use crate::raster::{Palette, Rgb, grb_color, pixel_at};

verus! {

/// The two color modes of the format.
#[derive(Clone, Copy, Debug, PartialEq, Eq, Structural)]
pub enum ColorMode {
    Palette16,
    Palette256,
}

/// Width in pixels of one column-unit.
pub open spec fn unit_width(c: ColorMode) -> int {
    match c {
        ColorMode::Palette16 => 8,
        ColorMode::Palette256 => 4,
    }
}

/// Pixels written by one nibble, literal or copied.
pub open spec fn copy_width(c: ColorMode) -> int {
    match c {
        ColorMode::Palette16 => 4,
        ColorMode::Palette256 => 2,
    }
}

/// Number of palette entries.
pub open spec fn color_count(c: ColorMode) -> int {
    match c {
        ColorMode::Palette16 => 16,
        ColorMode::Palette256 => 256,
    }
}

pub fn pixel_unit(c: ColorMode) -> (r: u16)
    ensures
        r as int == unit_width(c),
{
    match c {
        ColorMode::Palette16 => 8,
        ColorMode::Palette256 => 4,
    }
}

/// Pixels written by one nibble.
pub fn copy_pixels(c: ColorMode) -> (r: usize)
    ensures
        r as int == copy_width(c),
{
    match c {
        ColorMode::Palette16 => 4,
        ColorMode::Palette256 => 2,
    }
}

pub fn nibble_high(b: u8) -> (r: u8)
    ensures
        r == b >> 4,
        r < 16,
{
    proof {
        assert(b >> 4 < 16) by (bit_vector);
    }
    b >> 4
}

pub fn nibble_low(b: u8) -> (r: u8)
    ensures
        r == b & 0xf,
        r < 16,
{
    proof {
        assert(b & 0xf < 16) by (bit_vector);
    }
    b & 0xf
}

/// Columns back, in copy widths, of the block that nibble `n` copies.
pub open spec fn copy_dx(n: u8) -> int {
    match n {
        1 | 5 | 7 | 10 | 13 => 1,
        2 | 8 | 11 | 14 => 2,
        3 => 4,
        _ => 0,
    }
}

/// Rows up of the block that nibble `n` copies.
pub open spec fn copy_dy(n: u8) -> int {
    match n {
        4 | 5 => 1,
        6 | 7 | 8 => 2,
        9 | 10 | 11 => 4,
        12 | 13 | 14 => 8,
        15 => 16,
        _ => 0,
    }
}

/// The back-reference of nibble `n`: (columns back in copy widths, rows up).
pub fn copy_vector(n: u8) -> (r: (usize, usize))
    ensures
        r.0 as int == copy_dx(n),
        r.1 as int == copy_dy(n),
{
    match n {
        1 => (1, 0),
        2 => (2, 0),
        3 => (4, 0),
        4 => (0, 1),
        5 => (1, 1),
        6 => (0, 2),
        7 => (1, 2),
        8 => (2, 2),
        9 => (0, 4),
        10 => (1, 4),
        11 => (2, 4),
        12 => (0, 8),
        13 => (1, 8),
        14 => (2, 8),
        15 => (0, 16),
        _ => (0, 0),
    }
}

/// Whether bit `i` of the flag-bit stream exists and is set.
pub open spec fn bit_set(bits: Seq<bool>, i: int) -> bool {
    0 <= i < bits.len() && bits[i]
}

/// The flag bytes after the first `k` column-units of a row have been updated, and the
/// flag-byte cursor after them; `bit_base` is the row's first bit. Running out of flag
/// bits or of flag bytes is truncated input.
pub open spec fn flags_after(
    bits: Seq<bool>,
    flag_bytes: Seq<u8>,
    flags: Seq<u8>,
    byte: int,
    bit_base: int,
    k: int,
) -> Result<(Seq<u8>, int), Fault>
    decreases k,
{
    if k <= 0 {
        Ok((flags, byte))
    } else {
        match flags_after(bits, flag_bytes, flags, byte, bit_base, k - 1) {
            Err(f) => Err(f),
            Ok((fl, by)) => if !(0 <= bit_base + k - 1 < bits.len()) {
                Err(Fault::Truncated)
            } else if !bit_set(bits, bit_base + k - 1) {
                Ok((fl, by))
            } else if 0 <= by < flag_bytes.len() {
                Ok((fl.update(k - 1, fl[k - 1] ^ flag_bytes[by]), by + 1))
            } else {
                Err(Fault::Truncated)
            },
        }
    }
}

/// The grid `img` with the literal run of the pixel bytes at `pix` written at `base`.
pub open spec fn literal_run(
    img: Seq<Rgb>,
    base: int,
    pixels: Seq<u8>,
    pix: int,
    palette: Seq<u8>,
    mode: ColorMode,
) -> Seq<Rgb> {
    let p0 = pixels[pix];
    let p1 = pixels[pix + 1];
    match mode {
        ColorMode::Palette16 => img.update(base, grb_color(palette, (p0 >> 4) as int)).update(
            base + 1,
            grb_color(palette, (p0 & 0xf) as int),
        ).update(base + 2, grb_color(palette, (p1 >> 4) as int)).update(
            base + 3,
            grb_color(palette, (p1 & 0xf) as int),
        ),
        ColorMode::Palette256 => img.update(base, grb_color(palette, p0 as int)).update(
            base + 1,
            grb_color(palette, p1 as int),
        ),
    }
}

/// The grid `img` with the `len` pixels from `base` on copied from `back` pixels earlier.
pub open spec fn copy_run(img: Seq<Rgb>, base: int, back: int, len: int) -> Seq<Rgb> {
    Seq::new(img.len(), |k: int| if base <= k < base + len { img[k - back] } else { img[k] })
}

/// What nibble `n` does at column `dst_x` of row `y` of a grid `w` pixels wide, given the
/// grid so far and the pixel-stream cursor `pix`.
pub open spec fn nibble_step(
    pixels: Seq<u8>,
    palette: Seq<u8>,
    mode: ColorMode,
    w: int,
    img: Seq<Rgb>,
    pix: int,
    y: int,
    dst_x: int,
    n: u8,
) -> Result<(Seq<Rgb>, int), Fault> {
    if n == 0 {
        if 0 <= pix && pix + 2 <= pixels.len() {
            Ok((literal_run(img, y * w + dst_x, pixels, pix, palette, mode), pix + 2))
        } else {
            Err(Fault::Truncated)
        }
    } else {
        let cw = copy_width(mode);
        if dst_x >= copy_dx(n) * cw && y >= copy_dy(n) {
            Ok((copy_run(img, y * w + dst_x, copy_dy(n) * w + copy_dx(n) * cw, cw), pix))
        } else {
            Err(Fault::Format)
        }
    }
}

/// The input streams of one decode, as values.
pub struct Source {
    pub bits: Seq<bool>,
    pub flag_bytes: Seq<u8>,
    pub pixels: Seq<u8>,
    pub palette: Seq<u8>,
    pub mode: ColorMode,
    pub units: int,
}

/// The state carried through a decode, as values.
pub struct Progress {
    pub flags: Seq<u8>,
    pub byte: int,
    pub pix: int,
    pub img: Seq<Rgb>,
}

impl Source {
    pub open spec fn width(self) -> int {
        self.units * unit_width(self.mode)
    }
}

/// The state before the first of `h` rows: all flag bytes zero, both cursors at the
/// start, and every pixel black.
pub open spec fn start_progress(src: Source, h: int) -> Progress {
    Progress {
        flags: Seq::new(src.units as nat, |i: int| 0u8),
        byte: 0,
        pix: 0,
        img: Seq::new((src.width() * h) as nat, |i: int| Rgb { r: 0, g: 0, b: 0 }),
    }
}

/// Nibble `j` of a row: the high then the low nibble of each column-unit's flag byte.
pub open spec fn nibble_of(flags: Seq<u8>, j: int) -> u8 {
    if j % 2 == 0 {
        flags[j / 2] >> 4
    } else {
        flags[j / 2] & 0xf
    }
}

/// The state after the first `j` nibbles of row `y`.
pub open spec fn nibbles_after(src: Source, s: Progress, y: int, j: int) -> Result<Progress, Fault>
    decreases j,
{
    if j <= 0 {
        Ok(s)
    } else {
        match nibbles_after(src, s, y, j - 1) {
            Err(f) => Err(f),
            Ok(t) => match nibble_step(
                src.pixels,
                src.palette,
                src.mode,
                src.width(),
                t.img,
                t.pix,
                y,
                (j - 1) * copy_width(src.mode),
                nibble_of(t.flags, j - 1),
            ) {
                Err(f) => Err(f),
                Ok((img, pix)) => Ok(Progress { img, pix, ..t }),
            },
        }
    }
}

/// The state after row `y`: its flag bytes updated, then its nibbles decoded.
pub open spec fn row_step(src: Source, s: Progress, y: int) -> Result<Progress, Fault> {
    match flags_after(src.bits, src.flag_bytes, s.flags, s.byte, y * src.units, src.units) {
        Err(f) => Err(f),
        Ok((flags, byte)) => nibbles_after(src, Progress { flags, byte, ..s }, y, 2 * src.units),
    }
}

/// The state after the first `h` rows.
pub open spec fn rows_after(src: Source, s: Progress, h: int) -> Result<Progress, Fault>
    decreases h,
{
    if h <= 0 {
        Ok(s)
    } else {
        match rows_after(src, s, h - 1) {
            Err(f) => Err(f),
            Ok(t) => row_step(src, t, h - 1),
        }
    }
}

/// A column-unit whose flag bit is clear in a row keeps the flag byte it had before
/// that row.
pub proof fn lemma_flags_persist(
    bits: Seq<bool>,
    flag_bytes: Seq<u8>,
    flags: Seq<u8>,
    byte: int,
    bit_base: int,
    k: int,
    x: int,
)
    requires
        0 <= x < k <= flags.len(),
        flags_after(bits, flag_bytes, flags, byte, bit_base, k) is Ok,
        !bit_set(bits, bit_base + x),
    ensures
        flags_after(bits, flag_bytes, flags, byte, bit_base, k)->Ok_0.0.len() == flags.len(),
        flags_after(bits, flag_bytes, flags, byte, bit_base, k)->Ok_0.0[x] == flags[x],
    decreases k,
{
    if k - 1 > x {
        lemma_flags_persist(bits, flag_bytes, flags, byte, bit_base, k - 1, x);
    } else {
        lemma_flags_keep_tail(bits, flag_bytes, flags, byte, bit_base, k - 1, x);
    }
}

/// The first `k` column-units leave the flag bytes from `k` on as they were.
pub proof fn lemma_flags_keep_tail(
    bits: Seq<bool>,
    flag_bytes: Seq<u8>,
    flags: Seq<u8>,
    byte: int,
    bit_base: int,
    k: int,
    x: int,
)
    requires
        0 <= k <= x < flags.len(),
        flags_after(bits, flag_bytes, flags, byte, bit_base, k) is Ok,
    ensures
        flags_after(bits, flag_bytes, flags, byte, bit_base, k)->Ok_0.0[x] == flags[x],
        flags_after(bits, flag_bytes, flags, byte, bit_base, k)->Ok_0.0.len() == flags.len(),
    decreases k,
{
    if k > 0 {
        lemma_flags_keep_tail(bits, flag_bytes, flags, byte, bit_base, k - 1, x);
    }
}

/// Decoding nibbles leaves the flag bytes as they are.
pub proof fn lemma_nibbles_keep_flags(src: Source, s: Progress, y: int, j: int)
    requires
        nibbles_after(src, s, y, j) is Ok,
    ensures
        nibbles_after(src, s, y, j)->Ok_0.flags == s.flags,
    decreases j,
{
    if j > 0 {
        lemma_nibbles_keep_flags(src, s, y, j - 1);
    }
}

/// Across a whole row: a column-unit whose flag bit is clear in row `y` ends the row
/// with the flag byte it had after row `y - 1` (zero before the first row).
pub proof fn lemma_row_flags_persist(src: Source, s: Progress, y: int, x: int)
    requires
        0 <= x < src.units,
        s.flags.len() == src.units,
        row_step(src, s, y) is Ok,
        !bit_set(src.bits, y * src.units + x),
    ensures
        row_step(src, s, y)->Ok_0.flags[x] == s.flags[x],
{
    let fl = flags_after(src.bits, src.flag_bytes, s.flags, s.byte, y * src.units, src.units);
    lemma_flags_persist(src.bits, src.flag_bytes, s.flags, s.byte, y * src.units, src.units, x);
    let t = Progress { flags: fl->Ok_0.0, byte: fl->Ok_0.1, ..s };
    lemma_nibbles_keep_flags(src, t, y, 2 * src.units);
}

/// In 16-color mode, nibble 5 copies the four pixels one row up and one copy width to
/// the left; they lie inside the grid, above and before the write cursor.
pub proof fn lemma_copy_up_left(
    pixels: Seq<u8>,
    palette: Seq<u8>,
    w: int,
    img: Seq<Rgb>,
    pix: int,
    y: int,
    dst_x: int,
)
    requires
        w >= 8,
        0 <= dst_x,
        dst_x + 4 <= w,
        0 <= y,
        img.len() >= (y + 1) * w,
        nibble_step(pixels, palette, ColorMode::Palette16, w, img, pix, y, dst_x, 5u8) is Ok,
    ensures
        y >= 1,
        dst_x >= 4,
        forall|i: int|
            0 <= i < 4 ==> #[trigger] pixel_at(
                nibble_step(pixels, palette, ColorMode::Palette16, w, img, pix, y, dst_x, 5u8)->Ok_0.0,
                w,
                dst_x + i,
                y,
            ) == pixel_at(img, w, dst_x - 4 + i, y - 1),
{
    assert forall|i: int| 0 <= i < 4 implies #[trigger] pixel_at(
        nibble_step(pixels, palette, ColorMode::Palette16, w, img, pix, y, dst_x, 5u8)->Ok_0.0,
        w,
        dst_x + i,
        y,
    ) == pixel_at(img, w, dst_x - 4 + i, y - 1) by {
        assert(y * w + dst_x + i - (w + 4) == (y - 1) * w + (dst_x - 4 + i)) by (nonlinear_arith);
        assert(y * w + w <= img.len()) by (nonlinear_arith)
            requires
                img.len() >= (y + 1) * w,
        ;
        assert(y * w >= 0) by (nonlinear_arith)
            requires
                y >= 0,
                w >= 8,
        ;
    }
}

/// A failed prefix of the column-units fails the whole row, with the same fault.
pub proof fn lemma_flags_fail(
    bits: Seq<bool>,
    flag_bytes: Seq<u8>,
    flags: Seq<u8>,
    byte: int,
    bit_base: int,
    k: int,
    m: int,
)
    requires
        0 <= k <= m,
        flags_after(bits, flag_bytes, flags, byte, bit_base, k) is Err,
    ensures
        flags_after(bits, flag_bytes, flags, byte, bit_base, m) == flags_after(
            bits,
            flag_bytes,
            flags,
            byte,
            bit_base,
            k,
        ),
    decreases m - k,
{
    if k < m {
        lemma_flags_fail(bits, flag_bytes, flags, byte, bit_base, k, m - 1);
    }
}

/// A failed prefix of the nibbles fails the whole row, with the same fault.
pub proof fn lemma_nibbles_fail(src: Source, s: Progress, y: int, j: int, m: int)
    requires
        0 <= j <= m,
        nibbles_after(src, s, y, j) is Err,
    ensures
        nibbles_after(src, s, y, m) == nibbles_after(src, s, y, j),
    decreases m - j,
{
    if j < m {
        lemma_nibbles_fail(src, s, y, j, m - 1);
    }
}

/// A failed prefix of the rows fails the whole image, with the same fault.
pub proof fn lemma_rows_fail(src: Source, s: Progress, h: int, m: int)
    requires
        0 <= h <= m,
        rows_after(src, s, h) is Err,
    ensures
        rows_after(src, s, m) == rows_after(src, s, h),
    decreases m - h,
{
    if h < m {
        lemma_rows_fail(src, s, h, m - 1);
    }
}

/// `n` zero bytes.
fn zeros(n: usize) -> (r: Vec<u8>)
    ensures
        r@ == Seq::new(n as nat, |i: int| 0u8),
{
    let mut r: Vec<u8> = Vec::new();
    while r.len() < n
        invariant
            r@.len() <= n,
            r@ == Seq::new(r@.len(), |i: int| 0u8),
        decreases n - r@.len(),
    {
        r.push(0);
        assert(r@ =~= Seq::new(r@.len(), |i: int| 0u8));
    }
    r
}

/// `n` black pixels.
fn black(n: usize) -> (r: Vec<Rgb>)
    ensures
        r@ == Seq::new(n as nat, |i: int| Rgb { r: 0, g: 0, b: 0 }),
{
    let mut r: Vec<Rgb> = Vec::new();
    while r.len() < n
        invariant
            r@.len() <= n,
            r@ == Seq::new(r@.len(), |i: int| Rgb { r: 0, g: 0, b: 0 }),
        decreases n - r@.len(),
    {
        r.push(Rgb { r: 0, g: 0, b: 0 });
        assert(r@ =~= Seq::new(r@.len(), |i: int| Rgb { r: 0, g: 0, b: 0 }));
    }
    r
}

/// The input streams of one decode.
pub struct Streams {
    /// The flag-bit stream, one bit per column-unit per row.
    pub bits: Vec<bool>,
    /// The flag-byte stream, read when a flag bit is set.
    pub flag_bytes: Vec<u8>,
    /// The pixel-literal stream.
    pub pixels: Vec<u8>,
    pub palette: Palette,
    pub mode: ColorMode,
    /// Column-units per row.
    pub units: usize,
}

impl View for Streams {
    type V = Source;

    open spec fn view(&self) -> Source {
        Source {
            bits: self.bits@,
            flag_bytes: self.flag_bytes@,
            pixels: self.pixels@,
            palette: self.palette.grb_colors@,
            mode: self.mode,
            units: self.units as int,
        }
    }
}

/// The state carried through a decode: the per-column flag bytes that persist from
/// row to row, the two byte cursors, and the image so far.
pub struct DecodeState {
    pub line_flags: Vec<u8>,
    pub byte_pos: usize,
    pub pix_pos: usize,
    pub img: Vec<Rgb>,
}

impl View for DecodeState {
    type V = Progress;

    open spec fn view(&self) -> Progress {
        Progress {
            flags: self.line_flags@,
            byte: self.byte_pos as int,
            pix: self.pix_pos as int,
            img: self.img@,
        }
    }
}

impl Streams {
    /// The palette covers every index of the mode, and a row holds at least one
    /// column-unit and at most 65535 pixels.
    pub open spec fn wf(&self) -> bool {
        &&& self.palette.grb_colors@.len() >= 3 * color_count(self.mode)
        &&& 1 <= self.units
        &&& self.units * unit_width(self.mode) <= 0xffff
    }

    pub fn width(&self) -> (r: usize)
        requires
            self.wf(),
        ensures
            r as int == self@.width(),
    {
        match self.mode {
            ColorMode::Palette16 => self.units * 8,
            ColorMode::Palette256 => self.units * 4,
        }
    }

    /// Updates the flag byte of each column-unit of row `y`: where the unit's flag bit
    /// is set, the next flag byte is XORed into it; elsewhere it keeps its value.
    pub fn update_line_flags(&self, st: &mut DecodeState, y: usize) -> (r: Result<(), Error>)
        requires
            self.wf(),
            old(st).line_flags@.len() == self.units,
            y < 65536,
        ensures
            final(st).line_flags@.len() == self.units,
            final(st).img@ == old(st).img@,
            final(st).pix_pos == old(st).pix_pos,
            match r {
                Ok(_) => flags_after(
                    self.bits@,
                    self.flag_bytes@,
                    old(st).line_flags@,
                    old(st).byte_pos as int,
                    y * self.units,
                    self.units as int,
                ) == Ok::<_, Fault>((final(st).line_flags@, final(st).byte_pos as int)),
                Err(e) => flags_after(
                    self.bits@,
                    self.flag_bytes@,
                    old(st).line_flags@,
                    old(st).byte_pos as int,
                    y * self.units,
                    self.units as int,
                ) matches Err(f) && e.reports(f),
            },
    {
        let ghost flags0 = st.line_flags@;
        let ghost byte0 = st.byte_pos as int;
        proof {
            assert(self.units <= 16384);
            assert(y * self.units <= 65536 * 16384) by (nonlinear_arith)
                requires
                    y < 65536,
                    self.units <= 16384,
            ;
        }
        let base = y * self.units;
        let mut x: usize = 0;
        while x < self.units
            invariant
                self.wf(),
                y < 65536,
                base == y * self.units,
                base <= 65536 * 16384,
                self.units <= 16384,
                flags0 == old(st).line_flags@,
                byte0 == old(st).byte_pos as int,
                x <= self.units,
                st.line_flags@.len() == self.units,
                st.img@ == old(st).img@,
                st.pix_pos == old(st).pix_pos,
                flags_after(self.bits@, self.flag_bytes@, flags0, byte0, base as int, x as int) == Ok::<_, Fault>(
                    (st.line_flags@, st.byte_pos as int),
                ),
            decreases self.units - x,
        {
            let i = base + x;
            if i >= self.bits.len() {
                proof {
                    lemma_flags_fail(
                        self.bits@,
                        self.flag_bytes@,
                        flags0,
                        byte0,
                        base as int,
                        x + 1,
                        self.units as int,
                    );
                }
                return Err(fault_error(Fault::Truncated, "flag-bit stream ends early"));
            }
            if self.bits[i] {
                if st.byte_pos < self.flag_bytes.len() {
                    let v = st.line_flags[x] ^ self.flag_bytes[st.byte_pos];
                    st.line_flags.set(x, v);
                    st.byte_pos = st.byte_pos + 1;
                } else {
                    proof {
                        assert(flags_after(self.bits@, self.flag_bytes@, flags0, byte0, base as int, x + 1)
                            == Err::<(Seq<u8>, int), Fault>(Fault::Truncated));
                        lemma_flags_fail(
                            self.bits@,
                            self.flag_bytes@,
                            flags0,
                            byte0,
                            base as int,
                            x + 1,
                            self.units as int,
                        );
                    }
                    return Err(fault_error(Fault::Truncated, "flag-byte stream ends early"));
                }
            }
            x = x + 1;
        }
        Ok(())
    }

    /// What nibble `n` does at column `dst_x` of row `y`, from the state `s`.
    pub open spec fn nibble_result(&self, s: Progress, y: int, dst_x: int, n: u8) -> Result<
        (Seq<Rgb>, int),
        Fault,
    > {
        nibble_step(
            self.pixels@,
            self.palette.grb_colors@,
            self.mode,
            self@.width(),
            s.img,
            s.pix,
            y,
            dst_x,
            n,
        )
    }

    /// Copies the block that the nonzero nibble `n` points back to, one copy width of
    /// pixels, to column `dst_x` of row `y`; the block must lie inside the image.
    pub fn copy_pixel_unit(&self, st: &mut DecodeState, y: usize, dst_x: usize, n: u8) -> (r:
        Result<(), Error>)
        requires
            self.wf(),
            0 < n < 16,
            (y + 1) * self@.width() <= old(st).img@.len(),
            dst_x + copy_width(self.mode) <= self@.width(),
        ensures
            final(st).line_flags@ == old(st).line_flags@,
            final(st).byte_pos == old(st).byte_pos,
            final(st).pix_pos == old(st).pix_pos,
            final(st).img@.len() == old(st).img@.len(),
            match r {
                Ok(_) => self.nibble_result(old(st)@, y as int, dst_x as int, n) == Ok::<_, Fault>(
                    (final(st).img@, final(st).pix_pos as int),
                ),
                Err(e) => self.nibble_result(old(st)@, y as int, dst_x as int, n) matches Err(f)
                    && e.reports(f),
            },
    {
        let w = self.width();
        let cw = copy_pixels(self.mode);
        let (dx, dy) = copy_vector(n);
        if dst_x < dx * cw || y < dy {
            return Err(fault_error(Fault::Format, "copy source lies outside the image"));
        }
        let ghost img0 = st.img@;
        let len = st.img.len();
        proof {
            assert(w >= 2 * cw);
            assert(y * w + w <= len) by (nonlinear_arith)
                requires
                    (y + 1) * w <= len,
            ;
            assert(dy * w <= y * w) by (nonlinear_arith)
                requires
                    dy <= y,
            ;
            assert(dy >= 1 ==> dy * w >= w) by (nonlinear_arith);
            assert(dx >= 1 || dy >= 1);
        }
        let back = dy * w + dx * cw;
        let base = y * w + dst_x;
        let mut i: usize = 0;
        while i < cw
            invariant
                img0 == old(st).img@,
                st.line_flags@ == old(st).line_flags@,
                st.byte_pos == old(st).byte_pos,
                st.pix_pos == old(st).pix_pos,
                st.img@.len() == img0.len(),
                i <= cw,
                cw <= back <= base,
                base + cw <= img0.len(),
                img0.len() <= usize::MAX,
                forall|k: int|
                    0 <= k < img0.len() ==> #[trigger] st.img@[k] == if base <= k < base + i {
                        img0[k - back]
                    } else {
                        img0[k]
                    },
            decreases cw - i,
        {
            let p = st.img[base + i - back];
            st.img.set(base + i, p);
            i = i + 1;
        }
        assert(st.img@ =~= copy_run(img0, base as int, back as int, cw as int));
        Ok(())
    }

    /// Decodes nibble `n` at column `dst_x` of row `y`: zero reads a literal run from the
    /// pixel stream, any other value copies an earlier block.
    pub fn decode_nibble(&self, st: &mut DecodeState, y: usize, dst_x: usize, n: u8) -> (r: Result<
        (),
        Error,
    >)
        requires
            self.wf(),
            n < 16,
            (y + 1) * self@.width() <= old(st).img@.len(),
            dst_x + copy_width(self.mode) <= self@.width(),
        ensures
            final(st).line_flags@ == old(st).line_flags@,
            final(st).byte_pos == old(st).byte_pos,
            final(st).img@.len() == old(st).img@.len(),
            match r {
                Ok(_) => self.nibble_result(old(st)@, y as int, dst_x as int, n) == Ok::<_, Fault>(
                    (final(st).img@, final(st).pix_pos as int),
                ),
                Err(e) => self.nibble_result(old(st)@, y as int, dst_x as int, n) matches Err(f)
                    && e.reports(f),
            },
    {
        if n != 0 {
            return self.copy_pixel_unit(st, y, dst_x, n);
        }
        if self.pixels.len() < 2 || st.pix_pos > self.pixels.len() - 2 {
            return Err(fault_error(Fault::Truncated, "pixel stream ends early"));
        }
        let w = self.width();
        let len = st.img.len();
        proof {
            assert(y * w + w <= len) by (nonlinear_arith)
                requires
                    (y + 1) * w <= len,
            ;
        }
        let base = y * w + dst_x;
        let p0 = self.pixels[st.pix_pos];
        let p1 = self.pixels[st.pix_pos + 1];
        st.pix_pos = st.pix_pos + 2;
        match self.mode {
            ColorMode::Palette16 => {
                st.img.set(base, self.palette.rgb(nibble_high(p0)));
                st.img.set(base + 1, self.palette.rgb(nibble_low(p0)));
                st.img.set(base + 2, self.palette.rgb(nibble_high(p1)));
                st.img.set(base + 3, self.palette.rgb(nibble_low(p1)));
            },
            ColorMode::Palette256 => {
                st.img.set(base, self.palette.rgb(p0));
                st.img.set(base + 1, self.palette.rgb(p1));
            },
        }
        Ok(())
    }

    /// Decodes row `y`: updates the flag bytes, then decodes the high and the low nibble
    /// of each column-unit's flag byte, left to right.
    pub fn decode_row(&self, st: &mut DecodeState, y: usize) -> (r: Result<(), Error>)
        requires
            self.wf(),
            old(st).line_flags@.len() == self.units,
            (y + 1) * self@.width() <= old(st).img@.len(),
            y < 65536,
        ensures
            final(st).line_flags@.len() == self.units,
            final(st).img@.len() == old(st).img@.len(),
            match r {
                Ok(_) => row_step(self@, old(st)@, y as int) == Ok::<_, Fault>(final(st)@),
                Err(e) => row_step(self@, old(st)@, y as int) matches Err(f) && e.reports(f),
            },
    {
        match self.update_line_flags(st, y) {
            Err(e) => {
                return Err(e);
            },
            Ok(_) => {},
        }
        let ghost s1 = st@;
        let w = self.width();
        let cw = copy_pixels(self.mode);
        let mut x: usize = 0;
        while x < self.units
            invariant
                self.wf(),
                w == self@.width(),
                cw == copy_width(self.mode),
                (y + 1) * self@.width() <= old(st).img@.len(),
                s1.flags.len() == self.units,
                s1.img.len() == old(st).img@.len(),
                row_step(self@, old(st)@, y as int) == nibbles_after(
                    self@,
                    s1,
                    y as int,
                    2 * self.units,
                ),
                x <= self.units,
                st.line_flags@ == s1.flags,
                st.img@.len() == s1.img.len(),
                nibbles_after(self@, s1, y as int, 2 * x) == Ok::<_, Fault>(st@),
            decreases self.units - x,
        {
            proof {
                assert((2 * x + 2) * cw <= w) by (nonlinear_arith)
                    requires
                        x < self.units,
                        w == self.units * (2 * cw),
                ;
            }
            let flag = st.line_flags[x];
            let dst = 2 * x * cw;
            match self.decode_nibble(st, y, dst, nibble_high(flag)) {
                Err(e) => {
                    proof {
                        lemma_nibbles_fail(self@, s1, y as int, 2 * x + 1, 2 * self.units);
                    }
                    return Err(e);
                },
                Ok(_) => {},
            }
            assert(nibbles_after(self@, s1, y as int, 2 * x + 1) == Ok::<_, Fault>(st@));
            match self.decode_nibble(st, y, dst + cw, nibble_low(flag)) {
                Err(e) => {
                    proof {
                        lemma_nibbles_fail(self@, s1, y as int, 2 * x + 2, 2 * self.units);
                    }
                    return Err(e);
                },
                Ok(_) => {},
            }
            assert(nibbles_after(self@, s1, y as int, 2 * x + 2) == Ok::<_, Fault>(st@));
            x = x + 1;
        }
        Ok(())
    }


    /// Decodes `height` rows, top to bottom, from the start state.
    pub fn decode_image(&self, height: usize) -> (r: Result<Vec<Rgb>, Error>)
        requires
            self.wf(),
            height <= 0xffff,
            self@.width() * height <= usize::MAX,
        ensures
            r matches Ok(img) ==> img@.len() == self@.width() * height,
            match r {
                Ok(img) => rows_after(self@, start_progress(self@, height as int), height as int)
                    matches Ok(p) && img@ == p.img,
                Err(e) => rows_after(self@, start_progress(self@, height as int), height as int)
                    matches Err(f) && e.reports(f),
            },
    {
        let w = self.width();
        let ghost s0 = start_progress(self@, height as int);
        let mut st = DecodeState {
            line_flags: zeros(self.units),
            byte_pos: 0,
            pix_pos: 0,
            img: black(w * height),
        };
        assert(st@ == s0);
        let mut y: usize = 0;
        while y < height
            invariant
                self.wf(),
                s0 == start_progress(self@, height as int),
                w == self@.width(),
                height <= 0xffff,
                w * height <= usize::MAX,
                y <= height,
                st.line_flags@.len() == self.units,
                st.img@.len() == w * height,
                rows_after(self@, s0, y as int) == Ok::<_, Fault>(st@),
            decreases height - y,
        {
            proof {
                assert((y + 1) * w <= w * height) by (nonlinear_arith)
                    requires
                        y < height,
                ;
            }
            match self.decode_row(&mut st, y) {
                Err(e) => {
                    proof {
                        lemma_rows_fail(self@, s0, y + 1, height as int);
                    }
                    return Err(e);
                },
                Ok(_) => {},
            }
            y = y + 1;
        }
        Ok(st.img)
    }
}

} // verus!
