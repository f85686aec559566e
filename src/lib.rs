//! MAG image decoder
//!
//! The MAG format is also known as MAKI02, Maki-chan Graphics.
use vstd::prelude::*;

pub mod bytes;
pub mod codec;
pub mod error;
pub mod header;
pub mod raster;
pub mod text;

use crate::bytes::{packed_bit, read_u32_le, unpack_bits};
use crate::codec::{
    Progress, Source, Streams, color_count, rows_after, start_progress, unit_width,
};
use crate::error::fault_error;
use crate::header::{
    field16, field32, find_memo_end, lemma_memo_end_same, magic_ok, header_fault, header_start, image_height, image_width, info_matches, lemma_dimensions,
    mode_of, read_header, screen_mode, HEADER_SIZE,
};
use crate::raster::{double_rows, rows_doubled};
use crate::text::all_ascii;

pub use crate::codec::ColorMode;
pub use crate::error::{Error, Fault, Result, other_err};
pub use crate::raster::{Palette, Rgb, RgbImage};

verus! {

/// Represents metadata of an image.
#[derive(Clone, Debug, PartialEq)]
pub struct ImageInfo {
    /// The machine name (max 4 characters).
    /// e.g. PC98, PC88, ESEQ, X68K, MSX2
    pub machine_code: String,
    /// The author's name
    pub user_name: String,
    /// The author's memo
    pub memo: String,
    /// The x position
    pub x: u16,
    /// The y position
    pub y: u16,
    /// The width of the image, in pixels
    pub width: u16,
    /// The height of the image, in pixels
    pub height: u16,
    /// The number of colors, 16 or 256
    pub num_colors: u16,
    /// The rectangular pixel aspect ratio flag
    pub is_200_line_mode: bool,
}

/// What is wrong with the stream offsets and sizes of the header of `b`: the flag-bit
/// region must come before the flag-byte region, and the palette and the three regions
/// must lie inside `b`.
pub open spec fn stream_fault(b: Seq<u8>) -> Option<Fault> {
    let h = header_start(b);
    let nc = color_count(mode_of(screen_mode(b)));
    if field32(b, 16) < field32(b, 12) {
        Some(Fault::Format)
    } else if h + HEADER_SIZE + 3 * nc > b.len() || h + field32(b, 16) + field32(b, 20) > b.len()
        || h + field32(b, 24) + field32(b, 28) > b.len() {
        Some(Fault::Truncated)
    } else {
        None
    }
}

/// The rows of the final image of `b`: twice the stored rows in 200-line mode.
pub open spec fn output_height(b: Seq<u8>) -> int {
    if screen_mode(b) & 1 != 0 {
        2 * image_height(b)
    } else {
        image_height(b)
    }
}

/// Whether the unpacked flag bits or the final image of `b` would not fit in memory.
pub open spec fn too_large(b: Seq<u8>) -> bool {
    ||| 8 * (field32(b, 16) - field32(b, 12)) > usize::MAX
    ||| image_width(b) * output_height(b) > usize::MAX
}

/// The streams of `b`, located by the header's offsets.
pub open spec fn source_of(b: Seq<u8>) -> Source {
    let h = header_start(b);
    let mode = mode_of(screen_mode(b));
    let flag_a = b.subrange(h + field32(b, 12), h + field32(b, 16));
    Source {
        bits: Seq::new((8 * flag_a.len()) as nat, |i: int| packed_bit(flag_a, i)),
        flag_bytes: b.subrange(h + field32(b, 16), h + field32(b, 16) + field32(b, 20)),
        pixels: b.subrange(h + field32(b, 24), h + field32(b, 24) + field32(b, 28)),
        palette: b.subrange(h + HEADER_SIZE, h + HEADER_SIZE + 3 * color_count(mode)),
        mode,
        units: image_width(b) / unit_width(mode),
    }
}

/// The state before the first row: all flag bytes zero, both cursors at the start, and
/// every pixel black.
pub open spec fn start_of(b: Seq<u8>) -> Progress {
    start_progress(source_of(b), image_height(b))
}

/// The stored rows of the image of `b`, decoded top to bottom.
pub open spec fn decoded_pixels(b: Seq<u8>) -> std::result::Result<Seq<Rgb>, Fault> {
    match stream_fault(b) {
        Some(f) => Err(f),
        None => match rows_after(source_of(b), start_of(b), image_height(b)) {
            Err(f) => Err(f),
            Ok(p) => Ok(p.img),
        },
    }
}

/// 200-line mode changes only the final height. Take an accepted file `b` with bit 0 of
/// its screen-mode byte set, and `b0`, the same bytes with that bit cleared, where no
/// stream region covers that byte. Then both have the same dimensions and the same
/// stored rows (or the same fault), `b0` is output as stored, and `b` with every row twice.
pub proof fn lemma_line_mode_doubles(b: Seq<u8>, b0: Seq<u8>)
    requires
        header_fault(b) is None,
        screen_mode(b) & 1 != 0,
        b0.len() == b.len(),
        forall|i: int| 0 <= i < b.len() && i != header_start(b) + 3 ==> #[trigger] b0[i] == b[i],
        b0[header_start(b) + 3] == b[header_start(b) + 3] & 0xfe,
        !(field32(b, 12) <= 3 < field32(b, 16)),
        !(field32(b, 16) <= 3 < field32(b, 16) + field32(b, 20)),
        !(field32(b, 24) <= 3 < field32(b, 24) + field32(b, 28)),
    ensures
        header_fault(b0) is None,
        image_width(b0) == image_width(b),
        image_height(b0) == image_height(b),
        output_height(b0) == image_height(b),
        output_height(b) == 2 * image_height(b),
        decoded_pixels(b0) == decoded_pixels(b),
        too_large(b0) ==> too_large(b),
{
    let s = find_memo_end(b, 31)->Some_0;
    let h = header_start(b);
    lemma_memo_end_same(b, b0, 31);
    assert(header_start(b0) == h);
    assert(h + HEADER_SIZE <= b.len());
    let x = b[h + 3];
    assert((x & 0xfe) & 0x80 == x & 0x80) by (bit_vector);
    assert((x & 0xfe) & 1 == 0) by (bit_vector);
    assert(mode_of(screen_mode(b0)) == mode_of(screen_mode(b)));
    assert(b0.subrange(8, 12) =~= b.subrange(8, 12));
    assert(magic_ok(b0));
    assert(all_ascii(b0.subrange(8, 12)));
    assert forall|off: int| 4 <= off < 32 implies #[trigger] b0[h + off] == b[h + off] by {
        assert(h + off != h + 3);
    }
    assert(field16(b0, 4) == field16(b, 4));
    assert(field16(b0, 6) == field16(b, 6));
    assert(field16(b0, 8) == field16(b, 8));
    assert(field16(b0, 10) == field16(b, 10));
    assert forall|off: int| 12 <= off <= 28 implies #[trigger] field32(b0, off) == field32(b, off)
        by {
        assert(b0[h + off] == b[h + off]);
        assert(b0[h + off + 1] == b[h + off + 1]);
        assert(b0[h + off + 2] == b[h + off + 2]);
        assert(b0[h + off + 3] == b[h + off + 3]);
    }
    assert(field32(b0, 12) == field32(b, 12));
    assert(field32(b0, 16) == field32(b, 16));
    assert(field32(b0, 20) == field32(b, 20));
    assert(field32(b0, 24) == field32(b, 24));
    assert(field32(b0, 28) == field32(b, 28));
    assert(header_fault(b0) is None);
    assert(stream_fault(b0) == stream_fault(b));
    lemma_dimensions(b);
    assert(image_width(b) * image_height(b) <= image_width(b) * (2 * image_height(b)))
        by (nonlinear_arith)
        requires
            image_width(b) >= 0,
            image_height(b) >= 0,
    ;
    if stream_fault(b) is None {
        let fa = field32(b, 12);
        let fb = field32(b, 16);
        let po = field32(b, 24);
        let nc = color_count(mode_of(screen_mode(b)));
        assert(b0.subrange(h + fa, h + fb) =~= b.subrange(h + fa, h + fb));
        assert(b0.subrange(h + fb, h + fb + field32(b, 20)) =~= b.subrange(h + fb, h + fb + field32(b, 20)));
        assert(b0.subrange(h + po, h + po + field32(b, 28)) =~= b.subrange(h + po, h + po + field32(b, 28)));
        assert(b0.subrange(h + HEADER_SIZE, h + HEADER_SIZE + 3 * nc) =~= b.subrange(
            h + HEADER_SIZE,
            h + HEADER_SIZE + 3 * nc,
        ));
        assert(source_of(b0) == source_of(b));
        assert(start_of(b0) == start_of(b));
    }
}

/// MAG decoder
pub struct Decoder {
    info: ImageInfo,
    header_offset: usize,
    color_mode: ColorMode,
    buf: Vec<u8>,
}

impl View for Decoder {
    type V = Seq<u8>;

    /// The bytes of the image file.
    closed spec fn view(&self) -> Seq<u8> {
        self.buf@
    }
}

impl Decoder {
    /// The header was accepted, and the metadata, the header's offset and the color mode
    /// are what it describes.
    pub closed spec fn wf(&self) -> bool {
        &&& header_fault(self.buf@) is None
        &&& info_matches(self.info, self.buf@)
        &&& self.header_offset as int == header_start(self.buf@)
        &&& self.color_mode == mode_of(screen_mode(self.buf@))
    }

    /// Creates a new `Decoder` over the bytes of an image file.
    pub fn new(buf: Vec<u8>) -> (r: Result<Decoder>)
        ensures
            match r {
                Ok(d) => header_fault(buf@) is None && d.wf() && d@ == buf@,
                Err(e) => header_fault(buf@) matches Some(f) && e.reports(f),
            },
    {
        match read_header(&buf) {
            Err(e) => Err(e),
            Ok((info, header_offset, color_mode)) => Ok(
                Decoder { info, header_offset, color_mode, buf },
            ),
        }
    }

    /// Gets metadata
    pub fn info(&self) -> (r: &ImageInfo)
        requires
            self.wf(),
        ensures
            info_matches(*r, self@),
    {
        &self.info
    }

    /// Locates the palette and the three streams through the header's offsets.
    fn locate_streams(&self) -> (r: Result<Streams>)
        requires
            self.wf(),
        ensures
            match r {
                Ok(s) => {
                    &&& stream_fault(self@) is None
                    &&& 8 * (field32(self@, 16) - field32(self@, 12)) <= usize::MAX
                    &&& s.wf()
                    &&& s@ == source_of(self@)
                },
                Err(e) => (stream_fault(self@) matches Some(f) && e.reports(f)) || (stream_fault(
                    self@,
                ) is None && 8 * (field32(self@, 16) - field32(self@, 12)) > usize::MAX
                    && e is OtherError),
            },
    {
        let ghost bs = self.buf@;
        proof {
            lemma_dimensions(bs);
            assert(header_start(bs) + HEADER_SIZE <= bs.len());
        }
        let b = self.buf.as_slice();
        let len = b.len();
        let h = self.header_offset;
        let flag_a_offset = read_u32_le(b, h + 12);
        let flag_b_offset = read_u32_le(b, h + 16);
        let flag_b_size = read_u32_le(b, h + 20);
        let pixel_offset = read_u32_le(b, h + 24);
        let pixel_size = read_u32_le(b, h + 28);
        if flag_b_offset < flag_a_offset {
            return Err(fault_error(Fault::Format, "flag regions out of order"));
        }
        let rest = len - h;
        let palette_size: usize = match self.color_mode {
            ColorMode::Palette16 => 48,
            ColorMode::Palette256 => 768,
        };
        if HEADER_SIZE + palette_size > rest || flag_b_offset as usize > rest || flag_b_size as usize
            > rest - flag_b_offset as usize || pixel_offset as usize > rest || pixel_size as usize
            > rest - pixel_offset as usize {
            return Err(fault_error(Fault::Truncated, "a region lies past the end of the input"));
        }
        let flag_a_size = (flag_b_offset - flag_a_offset) as usize;
        if flag_a_size > usize::MAX / 8 {
            return Err(other_err("flag bits do not fit in memory"));
        }
        let pu = crate::codec::pixel_unit(self.color_mode) as usize;
        let flag_a = vstd::slice::slice_subrange(
            b,
            h + flag_a_offset as usize,
            h + flag_b_offset as usize,
        );
        let flag_b_start = h + flag_b_offset as usize;
        let pixel_start = h + pixel_offset as usize;
        let streams = Streams {
            bits: unpack_bits(flag_a),
            flag_bytes: vstd::slice::slice_to_vec(
                vstd::slice::slice_subrange(b, flag_b_start, flag_b_start + flag_b_size as usize),
            ),
            pixels: vstd::slice::slice_to_vec(
                vstd::slice::slice_subrange(b, pixel_start, pixel_start + pixel_size as usize),
            ),
            palette: Palette::new(
                vstd::slice::slice_subrange(b, h + HEADER_SIZE, h + HEADER_SIZE + palette_size),
            ),
            mode: self.color_mode,
            units: self.info.width as usize / pu,
        };
        assert(streams.bits@ =~= source_of(bs).bits);
        Ok(streams)
    }

    /// Decodes to an RGB image.
    pub fn decode(&self) -> (r: Result<RgbImage>)
        requires
            self.wf(),
        ensures
            match r {
                Ok(img) => {
                    &&& !too_large(self@)
                    &&& decoded_pixels(self@) matches Ok(px)
                    &&& img.width as int == image_width(self@)
                    &&& img.height as int == output_height(self@)
                    &&& if screen_mode(self@) & 1 != 0 {
                        rows_doubled(px, image_width(self@), image_height(self@), img.pixels@)
                    } else {
                        img.pixels@ == px
                    }
                },
                Err(e) => (too_large(self@) && e is OtherError) || (decoded_pixels(self@) matches Err(
                    f,
                ) && e.reports(f)),
            },
    {
        proof {
            lemma_dimensions(self@);
        }
        let streams = match self.locate_streams() {
            Err(e) => {
                return Err(e);
            },
            Ok(s) => s,
        };
        let w = self.info.width as usize;
        let height = self.info.height as usize;
        assert(streams@.width() == w);
        let out_height = if self.info.is_200_line_mode {
            2 * height
        } else {
            height
        };
        if w > usize::MAX / out_height {
            proof {
                assert(w * out_height > usize::MAX) by (nonlinear_arith)
                    requires
                        out_height > 0,
                        w > usize::MAX / out_height,
                ;
            }
            return Err(other_err("image does not fit in memory"));
        }
        proof {
            assert(w * out_height <= usize::MAX) by (nonlinear_arith)
                requires
                    out_height > 0,
                    w <= usize::MAX / out_height,
            ;
            assert(w * height <= w * out_height) by (nonlinear_arith)
                requires
                    height <= out_height,
            ;
        }
        let img = match streams.decode_image(height) {
            Err(e) => {
                return Err(e);
            },
            Ok(img) => img,
        };
        let pixels = if self.info.is_200_line_mode {
            double_rows(&img, w, height)
        } else {
            img
        };
        Ok(RgbImage { width: w as u32, height: out_height as u32, pixels })
    }
}

} // verus!
