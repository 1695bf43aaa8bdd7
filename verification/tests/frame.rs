use inox2d_mcp::frame::{encode_frame, flip_rows, frame_byte_len};
use inox2d_mcp::output::{deliver_png, RenderDelivery};

fn frame(width: u32, height: u32) -> Vec<u8> {
    (0..(width * height * 4)).map(|i| (i % 251) as u8).collect()
}

#[test]
fn flip_reverses_rows() {
    let mut p = vec![1, 2, 3, 4, 5, 6, 7, 8, 9, 10, 11, 12];
    flip_rows(&mut p, 1, 3);
    assert_eq!(p, vec![9, 10, 11, 12, 5, 6, 7, 8, 1, 2, 3, 4]);
}

#[test]
fn flip_even_height() {
    let mut p = frame(2, 4);
    let original = p.clone();
    flip_rows(&mut p, 2, 4);
    for r in 0..4 {
        assert_eq!(&p[r * 8..r * 8 + 8], &original[(3 - r) * 8..(3 - r) * 8 + 8]);
    }
}

#[test]
fn flip_twice_restores() {
    let mut p = frame(3, 5);
    let original = p.clone();
    flip_rows(&mut p, 3, 5);
    assert_ne!(p, original);
    flip_rows(&mut p, 3, 5);
    assert_eq!(p, original);
}

#[test]
fn flip_single_row_and_empty_frames() {
    let mut p = frame(4, 1);
    let original = p.clone();
    flip_rows(&mut p, 4, 1);
    assert_eq!(p, original);
    let mut e: Vec<u8> = Vec::new();
    flip_rows(&mut e, 0, 7);
    assert!(e.is_empty());
    flip_rows(&mut e, 5, 0);
    assert!(e.is_empty());
}

#[test]
fn frame_byte_len_is_four_bytes_per_pixel() {
    assert_eq!(frame_byte_len(800, 800), 2_560_000);
    assert_eq!(frame_byte_len(0, 10), 0);
    assert_eq!(frame_byte_len(3, 2), 24);
}

#[test]
fn encode_frame_writes_png_top_to_bottom() {
    let width = 2;
    let height = 3;
    let gl_rows = frame(width, height);
    let png = encode_frame(width, height, gl_rows.clone()).unwrap();
    assert_eq!(&png[..8], &[0x89, b'P', b'N', b'G', 0x0D, 0x0A, 0x1A, 0x0A]);
    let img = image::load_from_memory_with_format(&png, image::ImageFormat::Png).unwrap().to_rgba8();
    assert_eq!(img.dimensions(), (width, height));
    let raw = img.into_raw();
    let row = (width * 4) as usize;
    for r in 0..height as usize {
        let src = height as usize - 1 - r;
        assert_eq!(&raw[r * row..(r + 1) * row], &gl_rows[src * row..(src + 1) * row]);
    }
}

#[test]
fn encode_frame_of_empty_image_fails() {
    let r = encode_frame(0, 0, Vec::new());
    match r {
        Err(text) => assert!(!text.is_empty()),
        Ok(_) => panic!("empty image encoded"),
    }
}

#[test]
fn deliver_to_file() {
    match deliver_png(vec![1, 2, 3], Some("/tmp/out.png".to_string())) {
        RenderDelivery::SaveToFile { path, png } => {
            assert_eq!(path, "/tmp/out.png");
            assert_eq!(png, vec![1, 2, 3]);
        }
        RenderDelivery::InlineImage { .. } => panic!("expected a file"),
    }
}

#[test]
fn deliver_inline_base64() {
    match deliver_png(vec![1, 2, 3, 4], None) {
        RenderDelivery::InlineImage { data, mime_type } => {
            assert_eq!(data, "AQIDBA==");
            assert_eq!(mime_type, "image/png");
        }
        RenderDelivery::SaveToFile { .. } => panic!("expected inline data"),
    }
    match deliver_png(b"hello world~".to_vec(), None) {
        RenderDelivery::InlineImage { data, .. } => assert_eq!(data, "aGVsbG8gd29ybGR+"),
        RenderDelivery::SaveToFile { .. } => panic!("expected inline data"),
    }
    match deliver_png(Vec::new(), None) {
        RenderDelivery::InlineImage { data, .. } => assert_eq!(data, ""),
        RenderDelivery::SaveToFile { .. } => panic!("expected inline data"),
    }
}
