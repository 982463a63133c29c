use lib::error::HeicError;
use lib::limits::Limits;
use lib::processing::color::{convert_pixel_format, flatten_alpha, merge_alpha_channel};
use lib::processing::grid::assemble_grid;
use lib::processing::orientation::apply_orientation;
use lib::processing::pixels::PixelBuffer;
use lib::types::{ImageDimensions, Orientation, PixelFormat};

#[test]
fn color_test_merge_alpha_channel() {
    let limits = Limits::none();
    let dims = ImageDimensions::new(2, 2);

    let mut rgb = PixelBuffer::new(dims, PixelFormat::Rgb8);
    rgb.fill(&[100, 150, 200]).unwrap();

    let mut alpha = PixelBuffer::new(dims, PixelFormat::Rgb8);
    alpha.fill(&[128, 128, 128]).unwrap();

    let rgba = merge_alpha_channel(&rgb, &alpha, &limits).unwrap();
    assert_eq!(rgba.format, PixelFormat::Rgba8);
    assert_eq!(rgba.get_pixel(0, 0), Some(&[100, 150, 200, 128][..]));
}

#[test]
fn color_test_flatten_alpha_onto_white() {
    let limits = Limits::none();
    let dims = ImageDimensions::new(1, 1);

    let mut rgba = PixelBuffer::new(dims, PixelFormat::Rgba8);
    rgba.set_pixel(0, 0, &[255, 0, 0, 128]).unwrap();

    let rgb = flatten_alpha(&rgba, [255, 255, 255], &limits).unwrap();
    assert_eq!(rgb.format, PixelFormat::Rgb8);
    let px = rgb.get_pixel(0, 0).unwrap();
    assert_eq!(px[0], 255);
    assert!((px[1] as i32 - 127).abs() <= 1);
    assert!((px[2] as i32 - 127).abs() <= 1);
}

#[test]
fn color_test_convert_pixel_format_rgb_to_bgra() {
    let limits = Limits::none();
    let dims = ImageDimensions::new(1, 1);

    let mut rgb = PixelBuffer::new(dims, PixelFormat::Rgb8);
    rgb.set_pixel(0, 0, &[10, 20, 30]).unwrap();

    let bgra = convert_pixel_format(&rgb, PixelFormat::Bgra8, &limits).unwrap();
    assert_eq!(bgra.format, PixelFormat::Bgra8);
    assert_eq!(bgra.get_pixel(0, 0), Some(&[30, 20, 10, 255][..]));
}

#[test]
fn mod_test_merge_alpha_channel() {
    let limits = Limits::none();
    let dims = ImageDimensions::new(2, 2);

    let mut rgb = PixelBuffer::new(dims, PixelFormat::Rgb8);
    rgb.fill(&[100, 150, 200]).unwrap();

    let mut alpha = PixelBuffer::new(dims, PixelFormat::Rgb8);
    alpha.fill(&[128, 128, 128]).unwrap();

    let rgba = merge_alpha_channel(&rgb, &alpha, &limits).unwrap();
    assert_eq!(rgba.format, PixelFormat::Rgba8);
    assert_eq!(rgba.get_pixel(0, 0), Some(&[100, 150, 200, 128][..]));
}

#[test]
fn mod_test_flatten_alpha_onto_white() {
    let limits = Limits::none();
    let dims = ImageDimensions::new(1, 1);

    let mut rgba = PixelBuffer::new(dims, PixelFormat::Rgba8);
    rgba.set_pixel(0, 0, &[255, 0, 0, 128]).unwrap();

    let rgb = flatten_alpha(&rgba, [255, 255, 255], &limits).unwrap();
    assert_eq!(rgb.format, PixelFormat::Rgb8);
    let px = rgb.get_pixel(0, 0).unwrap();
    assert_eq!(px[0], 255);
    assert!((px[1] as i32 - 127).abs() <= 1);
    assert!((px[2] as i32 - 127).abs() <= 1);
}

#[test]
fn mod_test_convert_pixel_format_rgb_to_bgra() {
    let limits = Limits::none();
    let dims = ImageDimensions::new(1, 1);

    let mut rgb = PixelBuffer::new(dims, PixelFormat::Rgb8);
    rgb.set_pixel(0, 0, &[10, 20, 30]).unwrap();

    let bgra = convert_pixel_format(&rgb, PixelFormat::Bgra8, &limits).unwrap();
    assert_eq!(bgra.format, PixelFormat::Bgra8);
    assert_eq!(bgra.get_pixel(0, 0), Some(&[30, 20, 10, 255][..]));
}

fn four_tiles() -> Vec<PixelBuffer> {
    let tile_dims = ImageDimensions::new(4, 4);
    let mut t0 = PixelBuffer::new(tile_dims, PixelFormat::Rgb8);
    t0.fill(&[10, 0, 0]).unwrap();
    let mut t1 = PixelBuffer::new(tile_dims, PixelFormat::Rgb8);
    t1.fill(&[0, 20, 0]).unwrap();
    let mut t2 = PixelBuffer::new(tile_dims, PixelFormat::Rgb8);
    t2.fill(&[0, 0, 30]).unwrap();
    let mut t3 = PixelBuffer::new(tile_dims, PixelFormat::Rgb8);
    t3.fill(&[40, 40, 40]).unwrap();
    vec![t0, t1, t2, t3]
}

#[test]
fn test_assemble_grid_2x2() {
    let limits = Limits::none();
    let tiles = four_tiles();
    let canvas = assemble_grid(&tiles, 2, 2, 8, 8, &limits).expect("Grid assemble should succeed");

    assert_eq!(canvas.dimensions.width, 8);
    assert_eq!(canvas.dimensions.height, 8);
    assert_eq!(canvas.get_pixel(0, 0), Some(&[10, 0, 0][..]));
    assert_eq!(canvas.get_pixel(4, 0), Some(&[0, 20, 0][..]));
    assert_eq!(canvas.get_pixel(0, 4), Some(&[0, 0, 30][..]));
    assert_eq!(canvas.get_pixel(4, 4), Some(&[40, 40, 40][..]));
}

#[test]
fn test_assemble_grid_with_edge_cropping() {
    let limits = Limits::none();
    let tiles = four_tiles();
    let canvas = assemble_grid(&tiles, 2, 2, 7, 6, &limits).expect("Grid assemble should succeed");

    assert_eq!(canvas.dimensions.width, 7);
    assert_eq!(canvas.dimensions.height, 6);
    assert_eq!(canvas.get_pixel(6, 0), Some(&[0, 20, 0][..]));
    assert_eq!(canvas.get_pixel(0, 5), Some(&[0, 0, 30][..]));
    assert_eq!(canvas.get_pixel(6, 5), Some(&[40, 40, 40][..]));
}

#[test]
fn test_assemble_grid_mismatched_tile_count() {
    let limits = Limits::none();
    let t0 = PixelBuffer::new(ImageDimensions::new(4, 4), PixelFormat::Rgb8);
    let res = assemble_grid(&[t0], 2, 2, 8, 8, &limits);
    assert!(res.is_err());
}

#[test]
fn grid_pixels_outside_the_tiles_stay_zero() {
    let tiles = four_tiles();
    let canvas = assemble_grid(&tiles, 2, 2, 10, 9, &Limits::none()).unwrap();
    assert_eq!(canvas.get_pixel(9, 0), Some(&[0, 0, 0][..]));
    assert_eq!(canvas.get_pixel(0, 8), Some(&[0, 0, 0][..]));
    assert_eq!(canvas.get_pixel(7, 7), Some(&[40, 40, 40][..]));
}

#[test]
fn grid_errors() {
    let tiles = four_tiles();
    assert!(matches!(assemble_grid(&tiles, 0, 2, 8, 8, &Limits::none()), Err(HeicError::InvalidContainer(_))));
    assert!(matches!(assemble_grid(&tiles[..3], 2, 2, 8, 8, &Limits::none()), Err(HeicError::MalformedInput(_))));
    let mut mixed = four_tiles();
    mixed[3] = PixelBuffer::new(ImageDimensions::new(4, 4), PixelFormat::Rgba8);
    assert!(matches!(assemble_grid(&mixed, 2, 2, 8, 8, &Limits::none()), Err(HeicError::InvalidContainer(_))));
    let small = Limits::none().with_max_width(4);
    assert!(matches!(assemble_grid(&tiles, 2, 2, 8, 8, &small), Err(HeicError::LimitExceeded(_))));
}

#[test]
fn test_orientation_transforms() {
    let limits = Limits::none();
    let mut src = PixelBuffer::new(ImageDimensions::new(2, 3), PixelFormat::Rgb8);
    src.set_pixel(0, 0, &[1, 1, 1]).unwrap();
    src.set_pixel(1, 0, &[2, 2, 2]).unwrap();
    src.set_pixel(0, 1, &[3, 3, 3]).unwrap();
    src.set_pixel(1, 1, &[4, 4, 4]).unwrap();
    src.set_pixel(0, 2, &[5, 5, 5]).unwrap();
    src.set_pixel(1, 2, &[6, 6, 6]).unwrap();

    let normal = apply_orientation(&src, Orientation::Normal, &limits).unwrap();
    assert_eq!(normal.dimensions, ImageDimensions::new(2, 3));
    assert_eq!(normal.get_pixel(0, 0), Some(&[1, 1, 1][..]));

    let flip_h = apply_orientation(&src, Orientation::MirrorHorizontal, &limits).unwrap();
    assert_eq!(flip_h.dimensions, ImageDimensions::new(2, 3));
    assert_eq!(flip_h.get_pixel(0, 0), Some(&[2, 2, 2][..]));
    assert_eq!(flip_h.get_pixel(1, 0), Some(&[1, 1, 1][..]));

    let rot180 = apply_orientation(&src, Orientation::Rotate180, &limits).unwrap();
    assert_eq!(rot180.dimensions, ImageDimensions::new(2, 3));
    assert_eq!(rot180.get_pixel(0, 0), Some(&[6, 6, 6][..]));
    assert_eq!(rot180.get_pixel(1, 2), Some(&[1, 1, 1][..]));

    let flip_v = apply_orientation(&src, Orientation::MirrorVertical, &limits).unwrap();
    assert_eq!(flip_v.dimensions, ImageDimensions::new(2, 3));
    assert_eq!(flip_v.get_pixel(0, 0), Some(&[5, 5, 5][..]));
    assert_eq!(flip_v.get_pixel(1, 0), Some(&[6, 6, 6][..]));

    let transpose = apply_orientation(&src, Orientation::MirrorHorizontalRotate270, &limits).unwrap();
    assert_eq!(transpose.dimensions, ImageDimensions::new(3, 2));
    assert_eq!(transpose.get_pixel(0, 0), Some(&[1, 1, 1][..]));
    assert_eq!(transpose.get_pixel(2, 0), Some(&[5, 5, 5][..]));

    let rot90 = apply_orientation(&src, Orientation::Rotate90, &limits).unwrap();
    assert_eq!(rot90.dimensions, ImageDimensions::new(3, 2));
    assert_eq!(rot90.get_pixel(0, 0), Some(&[5, 5, 5][..]));
    assert_eq!(rot90.get_pixel(0, 1), Some(&[6, 6, 6][..]));
    assert_eq!(rot90.get_pixel(2, 0), Some(&[1, 1, 1][..]));

    let transverse = apply_orientation(&src, Orientation::MirrorHorizontalRotate90, &limits).unwrap();
    assert_eq!(transverse.dimensions, ImageDimensions::new(3, 2));
    assert_eq!(transverse.get_pixel(0, 0), Some(&[6, 6, 6][..]));

    let rot270 = apply_orientation(&src, Orientation::Rotate270, &limits).unwrap();
    assert_eq!(rot270.dimensions, ImageDimensions::new(3, 2));
    assert_eq!(rot270.get_pixel(0, 0), Some(&[2, 2, 2][..]));
    assert_eq!(rot270.get_pixel(2, 1), Some(&[5, 5, 5][..]));
}

#[test]
fn orientation_moves_each_pixel_to_its_target() {
    let mut src = PixelBuffer::new(ImageDimensions::new(3, 2), PixelFormat::Gray8);
    for y in 0..2u32 {
        for x in 0..3u32 {
            src.set_pixel(x, y, &[(y * 3 + x) as u8]).unwrap();
        }
    }
    let rot90 = apply_orientation(&src, Orientation::Rotate90, &Limits::none()).unwrap();
    for y in 0..2u32 {
        for x in 0..3u32 {
            // Rotate90 sends (x, y) to (h - 1 - y, x).
            assert_eq!(rot90.get_pixel(1 - y, x), src.get_pixel(x, y));
        }
    }
}

#[test]
fn orientation_respects_limits() {
    let src = PixelBuffer::new(ImageDimensions::new(4, 2), PixelFormat::Rgb8);
    let limits = Limits::none().with_max_height(3);
    assert!(matches!(apply_orientation(&src, Orientation::Rotate90, &limits), Err(HeicError::LimitExceeded(_))));
    assert!(apply_orientation(&src, Orientation::Rotate180, &limits).is_ok());
}

#[test]
fn test_pixel_buffer_creation_and_pixel_access() {
    let mut buf = PixelBuffer::new(ImageDimensions::new(10, 10), PixelFormat::Rgb8);
    assert_eq!(buf.dimensions.width, 10);
    assert_eq!(buf.dimensions.height, 10);
    assert_eq!(buf.stride, 30);
    assert_eq!(buf.data.len(), 300);

    let red = [255, 0, 0];
    buf.set_pixel(2, 3, &red).expect("Set pixel should succeed");
    assert_eq!(buf.get_pixel(2, 3), Some(&red[..]));
    assert_eq!(buf.get_pixel(0, 0), Some(&[0, 0, 0][..]));
    assert_eq!(buf.get_pixel(10, 10), None);
}

#[test]
fn test_pixel_buffer_blit() {
    let mut dest = PixelBuffer::new(ImageDimensions::new(20, 20), PixelFormat::Rgba8);
    let mut src = PixelBuffer::new(ImageDimensions::new(10, 10), PixelFormat::Rgba8);
    src.fill(&[10, 20, 30, 255]).expect("Fill should succeed");

    dest.blit(5, 5, &src, 0, 0, 10, 10).expect("Blit should succeed");

    assert_eq!(dest.get_pixel(0, 0), Some(&[0, 0, 0, 0][..]));
    assert_eq!(dest.get_pixel(5, 5), Some(&[10, 20, 30, 255][..]));
    assert_eq!(dest.get_pixel(14, 14), Some(&[10, 20, 30, 255][..]));
    assert_eq!(dest.get_pixel(15, 15), Some(&[0, 0, 0, 0][..]));
}

#[test]
fn set_pixel_leaves_other_pixels() {
    let mut buf = PixelBuffer::new(ImageDimensions::new(3, 3), PixelFormat::Rgb8);
    buf.fill(&[1, 2, 3]).unwrap();
    buf.set_pixel(1, 1, &[9, 9, 9]).unwrap();
    assert_eq!(buf.get_pixel(1, 1), Some(&[9, 9, 9][..]));
    assert_eq!(buf.get_pixel(0, 1), Some(&[1, 2, 3][..]));
    assert_eq!(buf.get_pixel(2, 1), Some(&[1, 2, 3][..]));
    assert_eq!(buf.get_pixel(1, 0), Some(&[1, 2, 3][..]));
}

#[test]
fn set_pixel_errors() {
    let mut buf = PixelBuffer::new(ImageDimensions::new(2, 2), PixelFormat::Rgb8);
    assert!(matches!(buf.set_pixel(2, 0, &[1, 2, 3]), Err(HeicError::InvalidInput(_))));
    assert!(matches!(buf.set_pixel(0, 0, &[1, 2]), Err(HeicError::InvalidInput(_))));
    assert!(matches!(buf.fill(&[1]), Err(HeicError::InvalidInput(_))));
}

#[test]
fn blit_clips_and_checks_format() {
    let mut dest = PixelBuffer::new(ImageDimensions::new(4, 4), PixelFormat::Gray8);
    let mut src = PixelBuffer::new(ImageDimensions::new(3, 3), PixelFormat::Gray8);
    src.fill(&[7]).unwrap();
    dest.blit(2, 2, &src, 1, 1, 10, 10).unwrap();
    assert_eq!(dest.get_pixel(2, 2), Some(&[7][..]));
    assert_eq!(dest.get_pixel(3, 3), Some(&[7][..]));
    assert_eq!(dest.get_pixel(1, 1), Some(&[0][..]));
    let other = PixelBuffer::new(ImageDimensions::new(1, 1), PixelFormat::Rgb8);
    assert!(matches!(dest.blit(0, 0, &other, 0, 0, 1, 1), Err(HeicError::InvalidInput(_))));
}

#[test]
fn crop_keeps_top_left_pixels() {
    let mut src = PixelBuffer::new(ImageDimensions::new(3, 3), PixelFormat::Gray8);
    for y in 0..3u32 {
        for x in 0..3u32 {
            src.set_pixel(x, y, &[(y * 3 + x) as u8]).unwrap();
        }
    }
    let c = src.crop(2, 5, &Limits::none()).unwrap();
    assert_eq!(c.dimensions, ImageDimensions::new(2, 3));
    assert_eq!(c.data, vec![0, 1, 3, 4, 6, 7]);
}

#[test]
fn from_raw_checks_length() {
    let ok = PixelBuffer::from_raw(ImageDimensions::new(2, 1), PixelFormat::Rgb8, vec![0; 6]);
    assert!(ok.is_ok());
    assert_eq!(ok.unwrap().stride, 6);
    let bad = PixelBuffer::from_raw(ImageDimensions::new(2, 1), PixelFormat::Rgb8, vec![0; 5]);
    assert!(bad.is_err());
}

#[test]
fn new_with_limits_checks_memory() {
    let limits = Limits::none().with_max_memory_bytes(11);
    let r = PixelBuffer::new_with_limits(ImageDimensions::new(2, 2), PixelFormat::Rgb8, &limits);
    assert!(matches!(r, Err(HeicError::LimitExceeded(_))));
    let r = PixelBuffer::new_with_limits(ImageDimensions::new(2, 2), PixelFormat::Rgb8, &Limits::none());
    assert_eq!(r.unwrap().data.len(), 12);
}

#[test]
fn flatten_blend_formula() {
    let mut rgba = PixelBuffer::new(ImageDimensions::new(1, 1), PixelFormat::Rgba8);
    rgba.set_pixel(0, 0, &[200, 100, 0, 51]).unwrap();
    let rgb = flatten_alpha(&rgba, [0, 50, 255], &Limits::none()).unwrap();
    // (c * a + bg * (255 - a) + 127) / 255
    assert_eq!(rgb.get_pixel(0, 0), Some(&[40, 60, 204][..]));
}

#[test]
fn merge_alpha_requires_same_dimensions() {
    let rgb = PixelBuffer::new(ImageDimensions::new(2, 2), PixelFormat::Rgb8);
    let alpha = PixelBuffer::new(ImageDimensions::new(1, 2), PixelFormat::Gray8);
    assert!(matches!(merge_alpha_channel(&rgb, &alpha, &Limits::none()), Err(HeicError::InvalidInput(_))));
}

#[test]
fn padded_rows_are_read_through_the_stride() {
    let src = PixelBuffer {
        dimensions: ImageDimensions::new(1, 2),
        format: PixelFormat::Rgb8,
        data: vec![1, 2, 3, 0, 0, 4, 5, 6],
        stride: 5,
    };
    let rgba = convert_pixel_format(&src, PixelFormat::Rgba8, &Limits::none()).unwrap();
    assert_eq!(rgba.data, vec![1, 2, 3, 255, 4, 5, 6, 255]);
    let alpha = PixelBuffer { dimensions: ImageDimensions::new(1, 2), format: PixelFormat::Gray8, data: vec![9, 7, 8], stride: 2 };
    let merged = merge_alpha_channel(&src, &alpha, &Limits::none()).unwrap();
    assert_eq!(merged.data, vec![1, 2, 3, 9, 4, 5, 6, 8]);
    let mismatched = PixelBuffer { dimensions: ImageDimensions::new(5, 5), format: PixelFormat::Gray8, data: vec![], stride: 0 };
    assert!(matches!(merge_alpha_channel(&src, &mismatched, &Limits::none()), Err(HeicError::InvalidInput(_))));
}

fn numbered(w: u32, h: u32, format: PixelFormat) -> PixelBuffer {
    let bpp = format.bytes_per_pixel() as usize;
    let data: Vec<u8> = (0..(w as usize * h as usize * bpp)).map(|i| (i * 7 + 3) as u8).collect();
    PixelBuffer::from_raw(ImageDimensions::new(w, h), format, data).unwrap()
}

#[test]
fn orientation_pairs_undo_each_other() {
    let limits = Limits::none();
    let src = numbered(3, 2, PixelFormat::Rgb8);
    let pairs = [
        (Orientation::Rotate90, Orientation::Rotate270),
        (Orientation::Rotate270, Orientation::Rotate90),
        (Orientation::Rotate180, Orientation::Rotate180),
        (Orientation::MirrorHorizontal, Orientation::MirrorHorizontal),
        (Orientation::MirrorVertical, Orientation::MirrorVertical),
        (Orientation::MirrorHorizontalRotate270, Orientation::MirrorHorizontalRotate270),
        (Orientation::MirrorHorizontalRotate90, Orientation::MirrorHorizontalRotate90),
        (Orientation::Normal, Orientation::Normal),
    ];
    for (there, back) in pairs {
        let mid = apply_orientation(&src, there, &limits).unwrap();
        let again = apply_orientation(&mid, back, &limits).unwrap();
        assert_eq!(again.dimensions, src.dimensions);
        assert_eq!(again.data, src.data);
    }
    for o in [
        Orientation::MirrorHorizontalRotate270,
        Orientation::Rotate90,
        Orientation::MirrorHorizontalRotate90,
        Orientation::Rotate270,
    ] {
        assert_eq!(apply_orientation(&src, o, &limits).unwrap().dimensions, ImageDimensions::new(2, 3));
    }
}

#[test]
fn conversion_there_and_back_keeps_the_pixels() {
    let limits = Limits::none();
    let rgba = numbered(2, 2, PixelFormat::Rgba8);
    let bgra = convert_pixel_format(&rgba, PixelFormat::Bgra8, &limits).unwrap();
    let back = convert_pixel_format(&bgra, PixelFormat::Rgba8, &limits).unwrap();
    assert_eq!(back.data, rgba.data);

    let rgb = numbered(2, 2, PixelFormat::Rgb8);
    let wide = convert_pixel_format(&rgb, PixelFormat::Bgra8, &limits).unwrap();
    let back = convert_pixel_format(&wide, PixelFormat::Rgb8, &limits).unwrap();
    assert_eq!(back.data, rgb.data);

    let same = convert_pixel_format(&rgb, PixelFormat::Rgb8, &limits).unwrap();
    assert_eq!(same.data, rgb.data);
    assert_eq!(same.dimensions, rgb.dimensions);
}
