//! The text preamble and the fixed 32-byte binary header.
use vstd::prelude::*;

use crate::ImageInfo;
use crate::bytes::{le16, le32, read_u16_le};
use crate::codec::{ColorMode, color_count, unit_width};
use crate::error::{Error, Fault, fault_error};
use crate::text::{all_ascii, ascii_chars, ascii_string, decode_shift_jis, shift_jis_text};

verus! {

/// Size in bytes of the binary header.
pub const HEADER_SIZE: usize = 32;

/// The memo ends at this byte.
pub const MEMO_END: u8 = 0x1a;

/// Whether `b` starts with the magic token "MAKI02  ".
pub open spec fn magic_ok(b: Seq<u8>) -> bool {
    &&& b.len() >= 8
    &&& b[0] == 0x4d && b[1] == 0x41 && b[2] == 0x4b && b[3] == 0x49
    &&& b[4] == 0x30 && b[5] == 0x32 && b[6] == 0x20 && b[7] == 0x20
}

/// The index of the first memo terminator at or after `i`.
pub open spec fn find_memo_end(b: Seq<u8>, i: int) -> Option<int>
    decreases b.len() - i,
{
    if i < 0 || i >= b.len() {
        None
    } else if b[i] == MEMO_END {
        Some(i)
    } else {
        find_memo_end(b, i + 1)
    }
}

/// The offset of the binary header: just after the memo's terminator.
pub open spec fn header_start(b: Seq<u8>) -> int {
    match find_memo_end(b, 31) {
        Some(s) => s + 1,
        None => 0,
    }
}

/// The color mode that the screen-mode byte selects with its bit 7.
pub open spec fn mode_of(screen: u8) -> ColorMode {
    if screen & 0x80 != 0 {
        ColorMode::Palette256
    } else {
        ColorMode::Palette16
    }
}

/// The screen-mode byte of the header.
pub open spec fn screen_mode(b: Seq<u8>) -> u8 {
    b[header_start(b) + 3]
}

/// The 16-bit header field at offset `off` of the header.
pub open spec fn field16(b: Seq<u8>, off: int) -> int {
    le16(b, header_start(b) + off)
}

/// The 32-bit header field at offset `off` of the header.
pub open spec fn field32(b: Seq<u8>, off: int) -> int {
    le32(b, header_start(b) + off)
}

/// The image width: the declared column range rounded out to whole column-units.
pub open spec fn image_width(b: Seq<u8>) -> int {
    let pu = unit_width(mode_of(screen_mode(b)));
    (field16(b, 8) / pu - field16(b, 4) / pu + 1) * pu
}

/// The image height: the declared row range.
pub open spec fn image_height(b: Seq<u8>) -> int {
    field16(b, 10) - field16(b, 6) + 1
}

/// What is wrong with the preamble and the header of `b`, checked in this order:
/// the magic token, the fixed text fields, the machine code's ASCII, the memo's terminator, the header's bytes,
/// its reserved first byte, and the declared ranges.
pub open spec fn header_fault(b: Seq<u8>) -> Option<Fault> {
    if !magic_ok(b) {
        Some(Fault::Format)
    } else if b.len() < 31 {
        Some(Fault::Truncated)
    } else if !all_ascii(b.subrange(8, 12)) {
        Some(Fault::Format)
    } else {
        match find_memo_end(b, 31) {
            None => Some(Fault::Truncated),
            Some(s) => if s + 1 + HEADER_SIZE > b.len() {
                Some(Fault::Truncated)
            } else if b[s + 1] != 0 {
                Some(Fault::Format)
            } else {
                let pu = unit_width(mode_of(screen_mode(b)));
                if field16(b, 8) / pu < field16(b, 4) / pu || field16(b, 10) < field16(b, 6)
                    || image_width(b) > 0xffff || image_height(b) > 0xffff {
                    Some(Fault::Format)
                } else {
                    None
                }
            },
        }
    }
}

/// Whether `info` is what the header of `b` describes.
pub open spec fn info_matches(info: ImageInfo, b: Seq<u8>) -> bool {
    &&& info.machine_code@ == ascii_chars(b.subrange(8, 12))
    &&& info.user_name@ == shift_jis_text(b.subrange(12, 31))
    &&& info.memo@ == shift_jis_text(b.subrange(31, header_start(b) - 1))
    &&& info.x as int == field16(b, 4)
    &&& info.y as int == field16(b, 6)
    &&& info.width as int == image_width(b)
    &&& info.height as int == image_height(b)
    &&& info.num_colors as int == color_count(mode_of(screen_mode(b)))
    &&& info.is_200_line_mode == (screen_mode(b) & 1 != 0)
}

/// Reads the preamble and the binary header: the image's metadata, the header's
/// offset, and the color mode.
pub fn read_header(buf: &Vec<u8>) -> (r: Result<(ImageInfo, usize, ColorMode), Error>)
    ensures
        match r {
            Ok((info, offset, mode)) => {
                &&& header_fault(buf@) is None
                &&& info_matches(info, buf@)
                &&& offset as int == header_start(buf@)
                &&& mode == mode_of(screen_mode(buf@))
            },
            Err(e) => header_fault(buf@) matches Some(f) && e.reports(f),
        },
{
    let b = buf.as_slice();
    if b.len() < 8 || b[0] != 0x4d || b[1] != 0x41 || b[2] != 0x4b || b[3] != 0x49 || b[4] != 0x30
        || b[5] != 0x32 || b[6] != 0x20 || b[7] != 0x20 {
        return Err(fault_error(Fault::Format, "magic number mismatch"));
    }
    if b.len() < 31 {
        return Err(fault_error(Fault::Truncated, "preamble ends early"));
    }
    let mut k: usize = 8;
    while k < 12
        invariant
            8 <= k <= 12,
            b@ == buf@,
            magic_ok(b@),
            b@.len() >= 31,
            forall|j: int| 8 <= j < k ==> #[trigger] b@[j] < 0x80,
        decreases 12 - k,
    {
        if b[k] >= 0x80 {
            assert(b@.subrange(8, 12)[k - 8] == b@[k as int]);
            assert(!all_ascii(b@.subrange(8, 12)));
            return Err(fault_error(Fault::Format, "machine code is not ASCII"));
        }
        k = k + 1;
    }
    let machine_code_bytes = vstd::slice::slice_subrange(b, 8, 12);
    assert(all_ascii(machine_code_bytes@)) by {
        assert forall|j: int| 0 <= j < machine_code_bytes@.len() implies #[trigger] machine_code_bytes@[j]
            < 0x80 by {
            assert(machine_code_bytes@[j] == b@[j + 8]);
        }
    }
    let mut i: usize = 31;
    while i < b.len() && b[i] != MEMO_END
        invariant
            31 <= i <= b@.len(),
            find_memo_end(b@, 31) == find_memo_end(b@, i as int),
        decreases b@.len() - i,
    {
        i = i + 1;
    }
    if i == b.len() {
        return Err(fault_error(Fault::Truncated, "memo has no terminator"));
    }
    let offset = i + 1;
    if b.len() - offset < HEADER_SIZE {
        return Err(fault_error(Fault::Truncated, "header ends early"));
    }
    if b[offset] != 0 {
        return Err(fault_error(Fault::Format, "header offset 0x00"));
    }
    let screen = b[offset + 3];
    let mode = if screen & 0x80 != 0 {
        ColorMode::Palette256
    } else {
        ColorMode::Palette16
    };
    let x = read_u16_le(b, offset + 4);
    let y = read_u16_le(b, offset + 6);
    let end_x = read_u16_le(b, offset + 8);
    let end_y = read_u16_le(b, offset + 10);
    let pu = crate::codec::pixel_unit(mode);
    if end_x / pu < x / pu || end_y < y {
        return Err(fault_error(Fault::Format, "declared range is empty"));
    }
    let width = ((end_x / pu - x / pu) as u32 + 1) * pu as u32;
    let height = (end_y - y) as u32 + 1;
    if width > 0xffff || height > 0xffff {
        return Err(fault_error(Fault::Format, "image too large"));
    }
    let machine_code = ascii_string(machine_code_bytes);
    let user_name = decode_shift_jis(vstd::slice::slice_subrange(b, 12, 31));
    let memo = decode_shift_jis(vstd::slice::slice_subrange(b, 31, i));
    let info = ImageInfo {
        machine_code,
        user_name,
        memo,
        x,
        y,
        width: width as u16,
        height: height as u16,
        num_colors: match mode {
            ColorMode::Palette16 => 16,
            ColorMode::Palette256 => 256,
        },
        is_200_line_mode: screen & 1 != 0,
    };
    Ok((info, offset, mode))
}

/// Every image whose header is accepted is a whole number of column-units wide, at
/// least one, and at least one row high.
pub proof fn lemma_dimensions(b: Seq<u8>)
    requires
        header_fault(b) is None,
    ensures
        image_width(b) % unit_width(mode_of(screen_mode(b))) == 0,
        image_width(b) >= unit_width(mode_of(screen_mode(b))),
        image_width(b) / unit_width(mode_of(screen_mode(b))) >= 1,
        (image_width(b) / unit_width(mode_of(screen_mode(b)))) * unit_width(
            mode_of(screen_mode(b)),
        ) == image_width(b),
        image_height(b) >= 1,
{
    let pu = unit_width(mode_of(screen_mode(b)));
    let k = field16(b, 8) / pu - field16(b, 4) / pu + 1;
    assert(k >= 1);
    vstd::arithmetic::div_mod::lemma_mod_multiples_basic(k, pu);
    vstd::arithmetic::div_mod::lemma_div_multiples_vanish(k, pu);
    assert(k * pu >= pu) by (nonlinear_arith)
        requires
            k >= 1,
            pu > 0,
    ;
    assert(pu * k == k * pu) by (nonlinear_arith);
}

/// A header that declares the column range `x..=end_x`, the row range `y..=end_y` and
/// the screen-mode byte `screen` yields the width of that range rounded out to whole
/// column-units of the mode that `screen` selects, and the height of the row range.
pub proof fn lemma_header_dimensions(b: Seq<u8>, x: u16, y: u16, end_x: u16, end_y: u16, screen: u8)
    requires
        header_fault(b) is None,
        field16(b, 4) == x as int,
        field16(b, 6) == y as int,
        field16(b, 8) == end_x as int,
        field16(b, 10) == end_y as int,
        screen_mode(b) == screen,
    ensures
        image_width(b) == ((end_x as int) / unit_width(mode_of(screen)) - (x as int) / unit_width(
            mode_of(screen),
        ) + 1) * unit_width(mode_of(screen)),
        image_height(b) == end_y - y + 1,
        mode_of(screen) == (if screen & 0x80 != 0 {
            ColorMode::Palette256
        } else {
            ColorMode::Palette16
        }),
{
}

/// The search for the memo's terminator reads nothing past the terminator it finds.
pub proof fn lemma_memo_end_same(b: Seq<u8>, c: Seq<u8>, i: int)
    requires
        0 <= i,
        find_memo_end(b, i) is Some,
        c.len() == b.len(),
        forall|k: int| i <= k <= find_memo_end(b, i)->Some_0 ==> #[trigger] c[k] == b[k],
    ensures
        i <= find_memo_end(b, i)->Some_0 < b.len(),
        find_memo_end(c, i) == find_memo_end(b, i),
    decreases b.len() - i,
{
    if b[i] != MEMO_END {
        lemma_memo_end_same(b, c, i + 1);
    }
    assert(c[i] == b[i]);
}

/// Input that does not start with the magic token is refused as malformed.
pub proof fn lemma_magic_mismatch(b: Seq<u8>)
    requires
        !magic_ok(b),
    ensures
        header_fault(b) == Some(Fault::Format),
{
}

/// With no terminator after offset `i`, the search from `i` finds none.
pub proof fn lemma_no_memo_end(b: Seq<u8>, i: int)
    requires
        0 <= i,
        forall|k: int| i <= k < b.len() ==> #[trigger] b[k] != MEMO_END,
    ensures
        find_memo_end(b, i) is None,
    decreases b.len() - i,
{
    if i < b.len() {
        lemma_no_memo_end(b, i + 1);
    }
}

/// A memo that runs to the end of the input with no terminator is reported as
/// truncated input (after an ASCII machine code, which is checked first).
pub proof fn lemma_unterminated_memo(b: Seq<u8>)
    requires
        magic_ok(b),
        b.len() >= 31 ==> all_ascii(b.subrange(8, 12)),
        forall|k: int| 31 <= k < b.len() ==> #[trigger] b[k] != MEMO_END,
    ensures
        header_fault(b) == Some(Fault::Truncated),
{
    lemma_no_memo_end(b, 31);
}

} // verus!
