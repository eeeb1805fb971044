use kv::bitmap::{add_background, render_image, stack_vertical, Bitmap};
use kv::dims::calculate_dimensions;
use kv::color::parse_color;
use kv::pages::{parse_pages, select_pdf_pages};
use kv::send::{frame_payload, remove_images_bytes, send_image, Mode};
use kv::{CacheMode, InputType, KvError, ResizeMode, Rgba, RpixContext};

fn ctx_with(resize_mode: ResizeMode, term: (u32, u32)) -> RpixContext {
    RpixContext {
        input_type: InputType::Auto,
        resize_mode,
        term_width: term.0,
        term_height: term.1,
        page_indices: None,
        cache_mode: CacheMode::Default,
        background: None,
    }
}

fn bitmap_1x1(px: [u8; 4]) -> Bitmap {
    Bitmap { width: 1, height: 1, data: px.to_vec() }
}

#[test]
fn test_calculate_dimensions() {
    let term = (100u32, 50u32);
    // explicit width
    assert_eq!(
        calculate_dimensions((100, 50), &ResizeMode::Manual { width: Some(50), height: None }, term),
        (50, 25)
    );
    // explicit height
    assert_eq!(
        calculate_dimensions((100, 50), &ResizeMode::Manual { width: None, height: Some(25) }, term),
        (50, 25)
    );
    // default: downscale only when the source exceeds the terminal
    assert_eq!(calculate_dimensions((1000, 500), &ResizeMode::ClipTerminal, term), (100, 50));
    // fullwidth
    assert_eq!(calculate_dimensions((50, 50), &ResizeMode::FitWidth, term), (100, 100));
    // fullheight
    assert_eq!(calculate_dimensions((200, 25), &ResizeMode::FitHeight, term), (400, 50));
    // fit terminal, bound by height
    assert_eq!(calculate_dimensions((500, 500), &ResizeMode::FitTerminal, term), (50, 50));
    // fit terminal, bound by width
    assert_eq!(calculate_dimensions((1000, 200), &ResizeMode::FitTerminal, term), (100, 20));
    // no resizing
    assert_eq!(calculate_dimensions((1000, 500), &ResizeMode::Original, term), (1000, 500));
}

#[test]
fn test_fit_terminal_exact_aspect() {
    // a 1000x500 source against a 100x50 terminal scales to exactly 100x50
    assert_eq!(
        calculate_dimensions((1000, 500), &ResizeMode::FitTerminal, (100, 50)),
        (100, 50)
    );
    // a 50x50 source with FitWidth against a 100-wide terminal becomes 100x100
    assert_eq!(calculate_dimensions((50, 50), &ResizeMode::FitWidth, (100, 50)), (100, 100));
}

#[test]
fn test_clip_terminal_small_source_unchanged() {
    assert_eq!(calculate_dimensions((99, 49), &ResizeMode::ClipTerminal, (100, 50)), (99, 49));
    assert_eq!(calculate_dimensions((100, 50), &ResizeMode::ClipTerminal, (100, 50)), (100, 50));
}

#[test]
fn test_clip_terminal_matches_fit_when_exceeding() {
    for dims in [(1000, 500), (101, 10), (10, 51), (500, 500)] {
        let clip = calculate_dimensions(dims, &ResizeMode::ClipTerminal, (100, 50));
        let fit = calculate_dimensions(dims, &ResizeMode::FitTerminal, (100, 50));
        assert_eq!(clip, fit);
    }
}

#[test]
fn test_zero_terminal_keeps_source() {
    assert_eq!(calculate_dimensions((640, 480), &ResizeMode::FitTerminal, (0, 0)), (640, 480));
    assert_eq!(calculate_dimensions((640, 480), &ResizeMode::ClipTerminal, (0, 0)), (640, 480));
    assert_eq!(calculate_dimensions((640, 480), &ResizeMode::FitWidth, (0, 50)), (640, 480));
}

#[test]
fn test_parse_pages() {
    assert_eq!(parse_pages("1").unwrap(), Some(vec![0]));
    assert_eq!(parse_pages("1,1").unwrap(), Some(vec![0]));
    assert_eq!(parse_pages("1,2").unwrap(), Some(vec![0, 1]));
    assert_eq!(parse_pages("2,1").unwrap(), Some(vec![0, 1]));
    assert_eq!(parse_pages("2,,3").unwrap(), Some(vec![1, 2]));
    assert_eq!(parse_pages("1-3").unwrap(), Some(vec![0, 1, 2]));
    assert_eq!(parse_pages("1-3,5").unwrap(), Some(vec![0, 1, 2, 4]));
    assert_eq!(parse_pages("1-3,5-7").unwrap(), Some(vec![0, 1, 2, 4, 5, 6]));
}

#[test]
fn test_parse_pages_empty() {
    let result = parse_pages("");
    assert!(result.is_ok());
    assert_eq!(result.unwrap(), None);
}

#[test]
fn test_parse_pages_invalid() {
    for s in ["a", "0", "-1", "1-2,4-3"] {
        let result = parse_pages(s);
        assert!(result.is_err(), "{s:?} should be rejected");
        assert_eq!(result.unwrap_err(), KvError::PageRangeError { bound: None });
    }
}

#[test]
fn test_select_pdf_pages_out_of_range() {
    // an index at or past the page count names the valid bound
    let sel = select_pdf_pages(&Some(vec![0, 2]), 2);
    assert_eq!(sel.unwrap_err(), KvError::PageRangeError { bound: Some(2) });
}

#[test]
fn test_select_pdf_pages_ok_and_empty() {
    assert_eq!(select_pdf_pages(&Some(vec![0, 1]), 2).unwrap(), vec![0, 1]);
    assert_eq!(select_pdf_pages(&None, 3).unwrap(), vec![0, 1, 2]);
    assert!(select_pdf_pages(&Some(vec![]), 2).is_err());
    assert!(select_pdf_pages(&None, 0).is_err());
}

#[test]
fn test_parse_color() {
    let cases = [
        ("FF0000", Rgba { r: 255, g: 0, b: 0, a: 255 }),
        ("00FF00", Rgba { r: 0, g: 255, b: 0, a: 255 }),
        ("0000FF", Rgba { r: 0, g: 0, b: 255, a: 255 }),
        ("FFFFFF", Rgba { r: 255, g: 255, b: 255, a: 255 }),
        ("000000", Rgba { r: 0, g: 0, b: 0, a: 255 }),
        ("#123abc", Rgba { r: 0x12, g: 0x3a, b: 0xbc, a: 255 }),
    ];
    for (s, expected) in cases {
        let result = parse_color(s);
        assert!(result.is_ok());
        assert_eq!(result.unwrap(), expected);
    }
}

#[test]
fn test_parse_color_invalid() {
    for s in ["FF00", "FF000000", "FF00GG"] {
        let result = parse_color(s);
        assert!(result.is_err(), "{s:?} should be rejected");
        assert_eq!(result.unwrap_err(), KvError::ColorFormatError);
    }
}

#[test]
fn test_add_background() {
    let white = Rgba { r: 255, g: 255, b: 255, a: 255 };
    let black = Rgba { r: 0, g: 0, b: 0, a: 255 };
    let cases: [(Rgba, [u8; 4], [u8; 4]); 5] = [
        (white, [0, 0, 0, 0], [255, 255, 255, 255]),
        (black, [0, 0, 0, 0], [0, 0, 0, 255]),
        (white, [0, 0, 0, 255], [0, 0, 0, 255]),
        (white, [255, 0, 0, 128], [255, 127, 127, 255]),
        (black, [255, 0, 0, 128], [128, 0, 0, 255]),
    ];
    for (color, src_pixel, expected) in cases {
        let img = bitmap_1x1(src_pixel);
        let out = add_background(&img, &color);
        assert_eq!(out.width, 1);
        assert_eq!(out.height, 1);
        assert_eq!(out.data, expected.to_vec(), "background not applied for {src_pixel:?}");
    }
}

#[test]
fn test_add_background_idempotent() {
    let red = Rgba { r: 255, g: 0, b: 0, a: 255 };
    let blue = Rgba { r: 0, g: 0, b: 255, a: 255 };
    let img = Bitmap { width: 2, height: 1, data: vec![10, 20, 30, 128, 200, 100, 50, 0] };
    let once = add_background(&img, &red);
    let twice_same = add_background(&once, &red);
    let twice_other = add_background(&once, &blue);
    assert_eq!(once.data, twice_same.data);
    assert_eq!(once.data, twice_other.data);
}

#[test]
fn test_stack_vertical() {
    let a = Bitmap { width: 2, height: 1, data: vec![1, 1, 1, 255, 2, 2, 2, 255] };
    let b = Bitmap { width: 1, height: 2, data: vec![3, 3, 3, 255, 4, 4, 4, 255] };
    let out = stack_vertical(&vec![a, b]).unwrap();
    assert_eq!(out.width, 2);
    assert_eq!(out.height, 3);
    assert_eq!(
        out.data,
        vec![
            1, 1, 1, 255, 2, 2, 2, 255, // row of a
            3, 3, 3, 255, 0, 0, 0, 0, // first row of b, padded
            4, 4, 4, 255, 0, 0, 0, 0, // second row of b, padded
        ]
    );
}

#[test]
fn test_stack_vertical_empty() {
    let out = stack_vertical(&Vec::new());
    assert_eq!(out.unwrap_err(), KvError::ParseError);
}

#[test]
fn test_render_image_resizes_and_composites() {
    // a constant-color 1x1 image scaled to 2x2 keeps its color everywhere
    let ctx = ctx_with(ResizeMode::Manual { width: Some(2), height: Some(2) }, (100, 50));
    let img = bitmap_1x1([10, 20, 30, 255]);
    let out = render_image(&ctx, img);
    assert_eq!((out.width, out.height), (2, 2));
    assert_eq!(out.data, vec![10, 20, 30, 255].repeat(4));

    // compositing a transparent image paints the background color
    let mut ctx2 = ctx_with(ResizeMode::Original, (100, 50));
    ctx2.background = Some(Rgba { r: 9, g: 8, b: 7, a: 255 });
    let out2 = render_image(&ctx2, bitmap_1x1([0, 0, 0, 0]));
    assert_eq!(out2.data, vec![9, 8, 7, 255]);
}

#[test]
fn test_send_image_raw_framing() {
    let img = bitmap_1x1([1, 2, 3, 4]);
    let bytes = send_image(&img, false, &Mode::Raw).unwrap();
    // one chunk: header on it, more-flag 0, base64 of the four raw bytes
    let expected = b"\x1b_Ga=T,f=32,s=1,v=1,m=0;AQIDBA==\x1b\\\n".to_vec();
    assert_eq!(bytes, expected);
}

#[test]
fn test_send_image_raw_to_file_is_unframed() {
    let img = bitmap_1x1([1, 2, 3, 4]);
    let bytes = send_image(&img, true, &Mode::Raw).unwrap();
    assert_eq!(bytes, vec![1, 2, 3, 4]);
}

#[test]
fn test_send_image_png_signature() {
    let img = bitmap_1x1([1, 2, 3, 4]);
    let bytes = send_image(&img, true, &Mode::Png).unwrap();
    assert!(bytes.starts_with(b"\x89PNG"), "a PNG payload starts with the PNG signature");
}

#[test]
fn test_send_image_zlib_round_trip() {
    let img = Bitmap { width: 2, height: 2, data: vec![7; 16] };
    let bytes = send_image(&img, true, &Mode::Zlib).unwrap();
    let mut decoder = flate2::read::ZlibDecoder::new(bytes.as_slice());
    let mut back = Vec::new();
    std::io::Read::read_to_end(&mut decoder, &mut back).unwrap();
    assert_eq!(back, vec![7; 16]);
}

#[test]
fn test_send_image_zlib_framed_uses_dumped_payload() {
    // the framed zlib transmission carries the base64 of exactly the
    // deflated payload the dump mode returns
    let img = Bitmap { width: 2, height: 2, data: vec![7; 16] };
    let payload = send_image(&img, true, &Mode::Zlib).unwrap();
    let again = send_image(&img, true, &Mode::Zlib).unwrap();
    assert_eq!(payload, again);
    let framed = send_image(&img, false, &Mode::Zlib).unwrap();
    let b64 = base64::Engine::encode(&base64::engine::general_purpose::STANDARD, &payload);
    let mut expected = b"\x1b_Ga=T,f=32,s=2,v=2,o=z,m=0;".to_vec();
    expected.extend_from_slice(b64.as_bytes());
    expected.extend_from_slice(b"\x1b\\\n");
    assert_eq!(framed, expected);
}

#[test]
fn test_frame_payload_exact_multiple() {
    // base64 text of exactly two chunks: chunk count is len / 4096, the
    // first chunk carries more-flag 1 and the last carries 0
    let b64: Vec<u8> = vec![b'A'; 8192];
    let framed = frame_payload(b"h,", &b64);
    let text = framed.clone();
    let frames = text.windows(3).filter(|w| w == b"\x1b_G").count();
    assert_eq!(frames, 2);
    assert!(text.starts_with(b"\x1b_Gh,m=1;"));
    let tail_start = text.windows(3).enumerate().filter(|(_, w)| *w == b"\x1b_G").map(|(i, _)| i).last().unwrap();
    assert!(text[tail_start..].starts_with(b"\x1b_Gm=0;"));
    assert_eq!(*text.last().unwrap(), b'\n');
}

#[test]
fn test_frame_payload_remainder() {
    // a non-multiple length leaves the remainder as the last chunk, still
    // flagged 0
    let b64: Vec<u8> = vec![b'B'; 4097];
    let framed = frame_payload(b"h,", &b64);
    let frames = framed.windows(3).filter(|w| w == b"\x1b_G").count();
    assert_eq!(frames, 2);
    let tail_start = framed.windows(3).enumerate().filter(|(_, w)| *w == b"\x1b_G").map(|(i, _)| i).last().unwrap();
    let tail = &framed[tail_start..];
    assert!(tail.starts_with(b"\x1b_Gm=0;"));
    // the last chunk holds exactly the one remaining byte
    assert_eq!(tail.len(), 3 + 4 + 1 + 2 + 1);
}

#[test]
fn test_frame_payload_empty() {
    let framed = frame_payload(b"h,", &Vec::new());
    assert_eq!(framed, vec![b'\n']);
}

#[test]
fn test_remove_images_bytes() {
    assert_eq!(remove_images_bytes(), b"\x1b_Ga=d\x1b\\".to_vec());
}

#[test]
fn test_send_image_zero_dims_is_conversion_error() {
    // the PNG encoder refuses a zero-pixel image
    let img = Bitmap { width: 0, height: 0, data: Vec::new() };
    assert_eq!(send_image(&img, true, &Mode::Png).unwrap_err(), KvError::ConversionError);
}

#[test]
fn test_send_image_multi_digit_header() {
    let img = Bitmap { width: 12, height: 1, data: vec![0; 48] };
    let bytes = send_image(&img, false, &Mode::Raw).unwrap();
    assert!(bytes.starts_with(b"\x1b_Ga=T,f=32,s=12,v=1,m=0;"));
}
