use bettertui_engine::graphics_protocol::{
    graphics_query, iterm_write, kitty_delete, kitty_delete_all, kitty_write, sixel_write, GraphicsImage,
    ImageFormat,
};

fn rgb_image<'a>(data: &'a [u8], w: u32, h: u32) -> GraphicsImage<'a> {
    GraphicsImage { format: ImageFormat::Rgb, width: w, height: h, data }
}

#[test]
fn kitty_write_single_chunk() {
    let data = [255u8, 0, 0];
    let seq = kitty_write(&rgb_image(&data, 1, 1), 7);
    let s = String::from_utf8_lossy(&seq);
    assert!(s.starts_with("\x1b_G"), "starts with APC _G: {s:?}");
    assert!(s.contains("a=T"), "transmit+display action");
    assert!(s.contains("f=24"), "RGB format code");
    assert!(s.contains("i=7"), "carries the id");
    assert!(s.contains("m=0"), "single chunk is final");
    assert!(s.ends_with("\x1b\\"), "ends with ST");
}

#[test]
fn kitty_write_chunks_large_payload() {
    let data = vec![1u8; 4096 * 3];
    let seq = kitty_write(&rgb_image(&data, 4096, 1), 1);
    let s = String::from_utf8_lossy(&seq);
    assert!(s.matches("\x1b_G").count() >= 2, "multi-chunk emits multiple escapes");
    assert!(s.contains("m=1"), "non-final chunk sets m=1");
    assert!(s.trim_end_matches("\x1b\\").ends_with(|c: char| c.is_ascii()), "ends cleanly");
}

#[test]
fn kitty_delete_sequences() {
    assert_eq!(kitty_delete(3), b"\x1b_Ga=d,d=i,i=3\x1b\\");
    assert_eq!(kitty_delete_all(), b"\x1b_Ga=d,d=A\x1b\\");
}

#[test]
fn sixel_write_emits_dcs_and_palette() {
    let data = [255u8, 0, 0, 0, 255, 0];
    let seq = sixel_write(&GraphicsImage { format: ImageFormat::Rgb, width: 2, height: 1, data: &data });
    let s = String::from_utf8_lossy(&seq);
    assert!(s.starts_with("\x1bPq"), "starts with DCS q: {s:?}");
    assert!(s.contains("#0;2;100;0;0"), "red palette entry");
    assert!(s.contains("#1;2;0;100;0"), "green palette entry");
    assert!(s.ends_with("\x1b\\"), "ends with ST");
}

#[test]
fn sixel_rejects_png() {
    let img = GraphicsImage { format: ImageFormat::Png, width: 1, height: 1, data: &[0, 1, 2] };
    assert!(sixel_write(&img).is_empty());
}

#[test]
fn sixel_rejects_short_buffer() {
    let data = [1u8, 2, 3];
    let img = GraphicsImage { format: ImageFormat::Rgb, width: 2, height: 2, data: &data };
    assert!(sixel_write(&img).is_empty());
}

#[test]
fn iterm_write_encodes_file() {
    let seq = iterm_write(b"PNGDATA", Some("a.png"), Some(10), None);
    let s = String::from_utf8_lossy(&seq);
    assert!(s.starts_with("\x1b]1337;File="), "OSC 1337 File: {s:?}");
    assert!(s.contains("inline=1"));
    assert!(s.contains("size=7"));
    assert!(s.contains("width=10"));
    assert!(!s.contains("height="), "height omitted when None");
    assert!(s.contains("UE5HREFUQQ=="), "payload base64: {s:?}");
    assert!(s.ends_with('\x07'), "BEL terminator");
}

#[test]
fn graphics_query_probes_kitty_and_sixel() {
    let seq = graphics_query();
    let s = String::from_utf8_lossy(&seq);
    assert!(s.contains("\x1b_Gi=1,a=q;"), "kitty query");
    assert!(s.contains("\x1b[c"), "DA1 for sixel");
}

#[test]
fn kitty_write_exact_single_chunk() {
    let data = [255u8, 0, 0];
    let seq = kitty_write(&rgb_image(&data, 1, 1), 7);
    assert_eq!(seq, b"\x1b_Ga=T,f=24,s=1,v=1,i=7,m=0;/wAA\x1b\\".to_vec());
}

#[test]
fn kitty_write_empty_data_sends_nothing() {
    let seq = kitty_write(&rgb_image(&[], 0, 0), 1);
    assert!(seq.is_empty());
}

#[test]
fn kitty_write_chunk_boundaries() {
    // 3072 bytes encode to exactly 4096 characters: one chunk.
    let one = vec![0u8; 3072];
    let s = String::from_utf8(kitty_write(&rgb_image(&one, 1024, 1), 2)).unwrap();
    assert_eq!(s.matches("\x1b_G").count(), 1);
    assert!(s.contains("m=0;"));
    // One more byte spills into a second chunk.
    let two = vec![0u8; 3073];
    let s = String::from_utf8(kitty_write(&rgb_image(&two, 1, 1), 2)).unwrap();
    assert_eq!(s.matches("\x1b_G").count(), 2);
    assert!(s.contains(",m=1;"));
    assert!(s.contains("\x1b_Gm=0;AA==\x1b\\"));
}

#[test]
fn kitty_write_png_and_rgba_codes() {
    let data = [1u8, 2, 3, 4];
    let png = kitty_write(&GraphicsImage { format: ImageFormat::Png, width: 5, height: 6, data: &data }, 9);
    assert!(String::from_utf8(png).unwrap().starts_with("\x1b_Ga=T,f=100,s=5,v=6,i=9,m=0;"));
    let rgba = kitty_write(&GraphicsImage { format: ImageFormat::Rgba, width: 1, height: 1, data: &data }, 9);
    assert!(String::from_utf8(rgba).unwrap().starts_with("\x1b_Ga=T,f=32,"));
}

#[test]
fn sixel_write_exact_two_pixels() {
    let data = [255u8, 0, 0, 0, 255, 0];
    let seq = sixel_write(&rgb_image(&data, 2, 1));
    assert_eq!(
        String::from_utf8(seq).unwrap(),
        "\x1bPq#0;2;100;0;0#1;2;0;100;0#0@?$#1?@$-\x1b\\"
    );
}

#[test]
fn sixel_write_bands_of_six_rows() {
    // One column, seven rows of the same colour: a full band and a band of one.
    let data = vec![10u8; 7 * 3];
    let s = String::from_utf8(sixel_write(&rgb_image(&data, 1, 7))).unwrap();
    assert_eq!(s, "\x1bPq#0;2;3;3;3#0~$-#0@$-\x1b\\");
}

#[test]
fn sixel_write_rgba_ignores_alpha() {
    let data = [0u8, 0, 255, 7, 0, 0, 255, 200];
    let s = String::from_utf8(sixel_write(&GraphicsImage {
        format: ImageFormat::Rgba,
        width: 1,
        height: 2,
        data: &data,
    }))
    .unwrap();
    assert_eq!(s, "\x1bPq#0;2;0;0;100#0B$-\x1b\\");
}

#[test]
fn sixel_write_zero_size_is_empty() {
    let data = [1u8, 2, 3];
    assert!(sixel_write(&rgb_image(&data, 0, 1)).is_empty());
    assert!(sixel_write(&rgb_image(&data, 1, 0)).is_empty());
}

#[test]
fn sixel_write_palette_caps_at_256() {
    // 257 distinct colours: the last one falls back to register 0.
    let mut data = Vec::new();
    for i in 0..257u32 {
        data.push((i % 256) as u8);
        data.push((i / 256) as u8);
        data.push(0);
    }
    let s = String::from_utf8(sixel_write(&rgb_image(&data, 257, 1))).unwrap();
    assert!(s.contains("#255;2;100;0;0"));
    assert!(!s.contains("#256;"));
    // Register 0 marks pixel 0 and pixel 256 (the overflow colour).
    let row0 = s.find("#0@").unwrap();
    let rest = &s[row0 + 2..];
    let bytes: Vec<char> = rest.chars().take(257).collect();
    assert_eq!(bytes[0], '@');
    assert_eq!(bytes[256], '@');
    assert!(bytes[1..256].iter().all(|c| *c == '?'));
}

#[test]
fn iterm_write_without_options() {
    let seq = iterm_write(b"PNGDATA", None, None, None);
    assert_eq!(seq, b"\x1b]1337;File=size=7;inline=1:UE5HREFUQQ==\x07".to_vec());
}

#[test]
fn iterm_write_name_comes_first() {
    let seq = iterm_write(b"", Some("a.png"), Some(3), Some(4));
    assert_eq!(seq, b"\x1b]1337;File=name=YS5wbmc=;size=0;inline=1;width=3;height=4:\x07".to_vec());
}

#[test]
fn graphics_query_exact() {
    assert_eq!(graphics_query(), b"\x1b_Gi=1,a=q;\x1b\\\x1b[c".to_vec());
}

#[test]
fn iterm_write_base64_padding() {
    assert_eq!(
        iterm_write(b"Ma", None, None, None),
        b"\x1b]1337;File=size=2;inline=1:TWE=\x07".to_vec()
    );
    assert_eq!(
        iterm_write(&[0xff, 0xfe, 0xfd, 0x00], None, None, None),
        b"\x1b]1337;File=size=4;inline=1://79AA==\x07".to_vec()
    );
    assert_eq!(
        iterm_write(b"", None, None, None),
        b"\x1b]1337;File=size=0;inline=1:\x07".to_vec()
    );
}
