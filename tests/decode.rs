use mag_image_decoder::{other_err, ColorMode, Decoder, Error, Palette, Rgb, RgbImage};

/// Builds an image file: preamble, memo, header, palette and the three streams.
struct Spec {
    magic: Vec<u8>,
    memo: Vec<u8>,
    terminate_memo: bool,
    reserved: u8,
    screen: u8,
    x: u16,
    y: u16,
    end_x: u16,
    end_y: u16,
    flag_a: Vec<u8>,
    flag_b: Vec<u8>,
    pixels: Vec<u8>,
}

impl Spec {
    fn new(screen: u8, end_x: u16, end_y: u16) -> Spec {
        Spec {
            magic: b"MAKI02  ".to_vec(),
            memo: b"memo".to_vec(),
            terminate_memo: true,
            reserved: 0,
            screen,
            x: 0,
            y: 0,
            end_x,
            end_y,
            flag_a: vec![0, 0],
            flag_b: Vec::new(),
            pixels: Vec::new(),
        }
    }

    fn colors(&self) -> usize {
        if self.screen & 0x80 != 0 {
            256
        } else {
            16
        }
    }

    fn bytes(&self) -> Vec<u8> {
        let mut b = self.magic.clone();
        b.extend_from_slice(b"PC98");
        b.extend_from_slice(b"USER               ");
        b.extend_from_slice(&self.memo);
        if !self.terminate_memo {
            return b;
        }
        b.push(0x1a);
        let palette_len = self.colors() * 3;
        let flag_a_offset = 32 + palette_len as u32;
        let flag_b_offset = flag_a_offset + self.flag_a.len() as u32;
        let pixel_offset = flag_b_offset + self.flag_b.len() as u32;
        b.push(self.reserved);
        b.push(0);
        b.push(0);
        b.push(self.screen);
        for v in [self.x, self.y, self.end_x, self.end_y] {
            b.extend_from_slice(&v.to_le_bytes());
        }
        for v in [
            flag_a_offset,
            flag_b_offset,
            self.flag_b.len() as u32,
            pixel_offset,
            self.pixels.len() as u32,
        ] {
            b.extend_from_slice(&v.to_le_bytes());
        }
        for i in 0..self.colors() {
            // (G, R, B) of entry i
            b.push(i as u8);
            b.push((i as u8).wrapping_add(16));
            b.push((i as u8).wrapping_add(32));
        }
        b.extend_from_slice(&self.flag_a);
        b.extend_from_slice(&self.flag_b);
        b.extend_from_slice(&self.pixels);
        b
    }
}

fn color(i: u8) -> Rgb {
    Rgb { r: i.wrapping_add(16), g: i, b: i.wrapping_add(32) }
}

fn row(img: &RgbImage, y: u32) -> Vec<Rgb> {
    (0..img.width()).map(|x| img.get_pixel(x, y)).collect()
}

fn is_format(r: &Result<Decoder, Error>) -> bool {
    matches!(r, Err(Error::InvalidFormat(_)))
}

fn is_truncated<T>(r: &Result<T, Error>) -> bool {
    matches!(r, Err(Error::TruncatedInput(_)))
}

#[test]
fn width_rounds_to_column_units() {
    let d = Decoder::new(Spec::new(0, 7, 0).bytes()).unwrap();
    assert_eq!(d.info().width, 8);
    assert_eq!(d.info().height, 1);
    let d = Decoder::new(Spec::new(0, 15, 4).bytes()).unwrap();
    assert_eq!(d.info().width, 16);
    assert_eq!(d.info().height, 5);
    let mut s = Spec::new(0, 9, 12);
    s.x = 3;
    s.y = 2;
    let d = Decoder::new(s.bytes()).unwrap();
    assert_eq!(d.info().width, 16);
    assert_eq!(d.info().height, 11);
    assert_eq!(d.info().x, 3);
    assert_eq!(d.info().y, 2);
    let d = Decoder::new(Spec::new(0x80, 3, 0).bytes()).unwrap();
    assert_eq!(d.info().width, 4);
    assert_eq!(d.info().num_colors, 256);
}

#[test]
fn width_is_whole_units_and_height_positive() {
    for (screen, x, end_x, unit) in [(0u8, 5u16, 21u16, 8u16), (0x80, 1, 2, 4), (0x80, 6, 13, 4)] {
        let mut s = Spec::new(screen, end_x, 3);
        s.x = x;
        s.y = 3;
        let d = Decoder::new(s.bytes()).unwrap();
        assert_eq!(d.info().width % unit, 0);
        assert_eq!(d.info().width, (end_x / unit - x / unit + 1) * unit);
        assert!(d.info().height >= 1);
    }
}

#[test]
fn metadata_text_fields() {
    let d = Decoder::new(Spec::new(1, 7, 0).bytes()).unwrap();
    let info = d.info();
    assert_eq!(info.machine_code, "PC98");
    assert_eq!(info.user_name, "USER               ");
    assert_eq!(info.memo, "memo");
    assert_eq!(info.num_colors, 16);
    assert!(info.is_200_line_mode);
}

#[test]
fn magic_mismatch_is_format_error() {
    let mut s = Spec::new(0, 7, 0);
    s.magic = b"MAKI01  ".to_vec();
    assert!(is_format(&Decoder::new(s.bytes())));
    assert!(is_format(&Decoder::new(b"MAK".to_vec())));
    assert!(is_format(&Decoder::new(Vec::new())));
}

#[test]
fn unterminated_memo_is_truncated() {
    let mut s = Spec::new(0, 7, 0);
    s.terminate_memo = false;
    assert!(is_truncated(&Decoder::new(s.bytes())));
    assert!(is_truncated(&Decoder::new(b"MAKI02  PC98".to_vec())));
}

#[test]
fn short_header_is_truncated() {
    let mut b = Spec::new(0, 7, 0).bytes();
    let start = b.iter().position(|&c| c == 0x1a).unwrap() + 1;
    b.truncate(start + 20);
    assert!(is_truncated(&Decoder::new(b)));
}

#[test]
fn reserved_header_byte_is_format_error() {
    let mut s = Spec::new(0, 7, 0);
    s.reserved = 1;
    assert!(is_format(&Decoder::new(s.bytes())));
}

#[test]
fn empty_range_is_format_error() {
    let mut s = Spec::new(0, 7, 0);
    s.x = 8;
    assert!(is_format(&Decoder::new(s.bytes())));
    let mut s = Spec::new(0, 7, 0);
    s.y = 1;
    assert!(is_format(&Decoder::new(s.bytes())));
}

#[test]
fn literal_16_colors_splits_bytes_into_nibbles() {
    let mut s = Spec::new(0, 7, 0);
    s.flag_a = vec![0x00];
    s.pixels = vec![0x3a, 0x00, 0x12, 0x34];
    let img = Decoder::new(s.bytes()).unwrap().decode().unwrap();
    assert_eq!(img.width(), 8);
    assert_eq!(img.height(), 1);
    assert_eq!(
        row(&img, 0),
        vec![color(3), color(10), color(0), color(0), color(1), color(2), color(3), color(4)]
    );
}

#[test]
fn literal_256_colors_reads_whole_bytes() {
    let mut s = Spec::new(0x80, 3, 0);
    s.pixels = vec![5, 200, 7, 9];
    let img = Decoder::new(s.bytes()).unwrap().decode().unwrap();
    assert_eq!(row(&img, 0), vec![color(5), color(200), color(7), color(9)]);
}

#[test]
fn copy_nibble_five_takes_block_up_and_left() {
    let mut s = Spec::new(0, 15, 1);
    // row 0: both units keep flag 0; row 1: unit 1 reads a flag byte
    s.flag_a = vec![0b0001_0000];
    s.flag_b = vec![0x55];
    s.pixels = vec![0x01, 0x23, 0x45, 0x67, 0x89, 0xab, 0xcd, 0xef, 0xff, 0xee, 0xdd, 0xcc];
    let img = Decoder::new(s.bytes()).unwrap().decode().unwrap();
    let r0 = row(&img, 0);
    let r1 = row(&img, 1);
    let expect0: Vec<Rgb> = (0..16u8).map(color).collect();
    assert_eq!(r0, expect0);
    assert_eq!(&r1[0..4], &[color(15), color(15), color(14), color(14)]);
    assert_eq!(&r1[4..8], &[color(13), color(13), color(12), color(12)]);
    assert_eq!(&r1[8..12], &r0[4..8]);
    assert_eq!(&r1[12..16], &r0[8..12]);
}

#[test]
fn line_flags_persist_across_rows() {
    let mut s = Spec::new(0, 7, 2);
    // row 1 sets the flag byte to 0x44 (copy from the row above); row 2 keeps it
    s.flag_a = vec![0b0100_0000];
    s.flag_b = vec![0x44];
    s.pixels = vec![0x12, 0x34, 0x56, 0x78];
    let img = Decoder::new(s.bytes()).unwrap().decode().unwrap();
    assert_eq!(img.height(), 3);
    let r0 = row(&img, 0);
    assert_eq!(r0, (1..9u8).map(color).collect::<Vec<_>>());
    assert_eq!(row(&img, 1), r0);
    assert_eq!(row(&img, 2), r0);
}

#[test]
fn two_hundred_line_mode_doubles_rows() {
    let mut s = Spec::new(1, 7, 9);
    s.pixels = (0..40u8).collect();
    let img = Decoder::new(s.bytes()).unwrap().decode().unwrap();
    assert_eq!(img.width(), 8);
    assert_eq!(img.height(), 20);
    let mut plain = Spec::new(0, 7, 9);
    plain.pixels = (0..40u8).collect();
    let base = Decoder::new(plain.bytes()).unwrap().decode().unwrap();
    assert_eq!(base.height(), 10);
    for k in 0..10 {
        assert_eq!(row(&img, 2 * k), row(&base, k));
        assert_eq!(row(&img, 2 * k + 1), row(&base, k));
    }
}

#[test]
fn copy_from_outside_image_is_format_error() {
    let mut s = Spec::new(0, 7, 0);
    s.flag_a = vec![0x80];
    s.flag_b = vec![0x40];
    let d = Decoder::new(s.bytes()).unwrap();
    assert!(matches!(d.decode(), Err(Error::InvalidFormat(_))));
}

#[test]
fn short_pixel_stream_is_truncated() {
    let mut s = Spec::new(0, 7, 0);
    s.pixels = vec![0x11, 0x22, 0x33];
    let d = Decoder::new(s.bytes()).unwrap();
    assert!(is_truncated(&d.decode()));
}

#[test]
fn short_flag_byte_stream_is_truncated() {
    let mut s = Spec::new(0, 7, 0);
    s.flag_a = vec![0x80];
    s.pixels = vec![0x11, 0x22, 0x33, 0x44];
    let d = Decoder::new(s.bytes()).unwrap();
    assert!(is_truncated(&d.decode()));
}

#[test]
fn region_past_end_is_truncated() {
    let mut s = Spec::new(0, 7, 0);
    s.pixels = vec![0x11, 0x22, 0x33, 0x44];
    let mut b = s.bytes();
    b.pop();
    let d = Decoder::new(b).unwrap();
    assert!(is_truncated(&d.decode()));
}

#[test]
fn flag_regions_out_of_order_is_format_error() {
    let mut b = Spec::new(0, 7, 0).bytes();
    let start = b.iter().position(|&c| c == 0x1a).unwrap() + 1;
    // flag_a_offset past flag_b_offset
    b[start + 12..start + 16].copy_from_slice(&200u32.to_le_bytes());
    let d = Decoder::new(b).unwrap();
    assert!(matches!(d.decode(), Err(Error::InvalidFormat(_))));
}

#[test]
fn palette_reorders_grb_to_rgb() {
    let p = Palette::new(&[1, 2, 3, 10, 20, 30]);
    assert_eq!(p.rgb(0), Rgb { r: 2, g: 1, b: 3 });
    assert_eq!(p.rgb(1), Rgb { r: 20, g: 10, b: 30 });
}

#[test]
fn other_err_keeps_message() {
    assert!(matches!(other_err("boom"), Error::OtherError(m) if m == "boom"));
    assert!(matches!(
        other_err(String::from("Unknown encoding; Shift_JIS")),
        Error::OtherError(m) if m == "Unknown encoding; Shift_JIS"
    ));
}

#[test]
fn color_mode_unit_widths() {
    assert_eq!(mag_image_decoder::codec::pixel_unit(ColorMode::Palette16), 8);
    assert_eq!(mag_image_decoder::codec::pixel_unit(ColorMode::Palette256), 4);
    assert_eq!(mag_image_decoder::codec::nibble_high(0x3a), 3);
    assert_eq!(mag_image_decoder::codec::nibble_low(0x3a), 10);
}

#[test]
fn memo_is_decoded_as_shift_jis() {
    let mut s = Spec::new(0, 7, 0);
    // "あ" then "A" in Shift_JIS
    s.memo = vec![0x82, 0xa0, 0x41];
    let d = Decoder::new(s.bytes()).unwrap();
    assert_eq!(d.info().memo, "\u{3042}A");
}

#[test]
fn non_ascii_machine_code_is_format_error() {
    let mut b = Spec::new(0, 7, 0).bytes();
    b[8] = 0xff;
    assert!(is_format(&Decoder::new(b)));
}

#[test]
fn short_flag_bit_stream_is_truncated() {
    let mut s = Spec::new(0, 7, 8);
    s.flag_a = vec![0x00];
    s.pixels = vec![0; 36];
    let d = Decoder::new(s.bytes()).unwrap();
    assert!(is_truncated(&d.decode()));
}

#[test]
fn image_buffer_accessors() {
    let img = RgbImage { width: 2, height: 1, pixels: vec![color(1), color(2)] };
    assert_eq!(img.width(), 2);
    assert_eq!(img.height(), 1);
    assert_eq!(img.get_pixel(1, 0), color(2));
}
