use icon_builder::catalog::{build_catalog, select_sizes, SizeCatalog, CATALOG_SIZES};
use icon_builder::error::IconError;
use icon_builder::pixel::{square_crop, PixelImage};

fn numbered(width: u32, height: u32) -> PixelImage {
    let mut pixels = Vec::new();
    for y in 0..height {
        for x in 0..width {
            pixels.push(x as u8);
            pixels.push(y as u8);
            pixels.push((x + 10 * y) as u8);
            pixels.push(255);
        }
    }
    PixelImage { width, height, pixels }
}

fn pixel(img: &PixelImage, x: u32, y: u32) -> [u8; 4] {
    let at = ((y * img.width + x) * 4) as usize;
    [img.pixels[at], img.pixels[at + 1], img.pixels[at + 2], img.pixels[at + 3]]
}

#[test]
fn crop_of_wide_image_is_centred() {
    let src = numbered(6, 2);
    let out = square_crop(&src).unwrap();
    assert_eq!((out.width, out.height), (2, 2));
    assert_eq!(out.pixels.len(), 16);
    for y in 0..2 {
        for x in 0..2 {
            assert_eq!(pixel(&out, x, y), pixel(&src, x + 2, y));
        }
    }
}

#[test]
fn crop_of_tall_image_is_centred() {
    let src = numbered(3, 9);
    let out = square_crop(&src).unwrap();
    assert_eq!((out.width, out.height), (3, 3));
    for y in 0..3 {
        for x in 0..3 {
            assert_eq!(pixel(&out, x, y), pixel(&src, x, y + 3));
        }
    }
}

#[test]
fn crop_rounds_odd_difference_down() {
    let src = numbered(5, 2);
    let out = square_crop(&src).unwrap();
    assert_eq!((out.width, out.height), (2, 2));
    assert_eq!(pixel(&out, 0, 0), [1, 0, 1, 255]);
    assert_eq!(pixel(&out, 1, 0), [2, 0, 2, 255]);
    assert_eq!(pixel(&out, 0, 1), [1, 1, 11, 255]);
    assert_eq!(pixel(&out, 1, 1), [2, 1, 12, 255]);
    let src = numbered(2, 7);
    let out = square_crop(&src).unwrap();
    assert_eq!(pixel(&out, 0, 0), pixel(&src, 0, 2));
    assert_eq!(pixel(&out, 1, 1), pixel(&src, 1, 3));
}

#[test]
fn crop_of_square_is_the_square() {
    let src = numbered(4, 4);
    let out = square_crop(&src).unwrap();
    assert_eq!((out.width, out.height), (4, 4));
    assert_eq!(out.pixels, src.pixels);
}

#[test]
fn crop_of_single_pixel() {
    let src = numbered(1, 1);
    let out = square_crop(&src).unwrap();
    assert_eq!((out.width, out.height), (1, 1));
    assert_eq!(out.pixels, vec![0, 0, 0, 255]);
}

#[test]
fn crop_rejects_image_without_pixels() {
    let none = PixelImage { width: 0, height: 5, pixels: Vec::new() };
    assert_eq!(square_crop(&none).unwrap_err(), IconError::InvalidImage);
    let none = PixelImage { width: 7, height: 0, pixels: Vec::new() };
    assert_eq!(square_crop(&none).unwrap_err(), IconError::InvalidImage);
    let none = PixelImage { width: 0, height: 0, pixels: Vec::new() };
    assert_eq!(square_crop(&none).unwrap_err(), IconError::InvalidImage);
}

#[test]
fn catalog_holds_every_size_at_its_size() {
    let catalog = build_catalog(&numbered(20, 20));
    assert_eq!(catalog.len(), 19);
    assert_eq!(CATALOG_SIZES.len(), 19);
    for s in CATALOG_SIZES {
        assert!(catalog.contains(s));
        let img = catalog.get(s).unwrap();
        assert_eq!((img.width, img.height), (s, s));
        assert_eq!(img.pixels.len(), (s * s * 4) as usize);
    }
    assert!(!catalog.contains(20));
    assert!(catalog.get(1024).is_none());
}

#[test]
fn catalog_sizes_are_the_fixed_list() {
    assert_eq!(
        CATALOG_SIZES,
        [512, 256, 128, 96, 64, 48, 32, 24, 16, 310, 284, 150, 142, 107, 89, 71, 44, 30, 50]
    );
}

#[test]
fn catalog_entry_of_source_size_is_the_source() {
    let src = numbered(16, 16);
    let catalog = build_catalog(&src);
    assert_eq!(catalog.get(16).unwrap().pixels, src.pixels);
}

#[test]
fn catalog_smooths_when_it_shrinks() {
    let mut src = numbered(32, 32);
    for (i, b) in src.pixels.iter_mut().enumerate() {
        let p = i / 4;
        let (x, y) = (p % 32, p / 32);
        *b = if i % 4 == 3 { 255 } else if (x + y) % 2 == 0 { 0 } else { 200 };
    }
    let catalog = build_catalog(&src);
    let small = catalog.get(16).unwrap();
    let v = small.pixels[(8 * 16 + 8) * 4];
    assert!(v > 40 && v < 160, "alternating pixels average out, got {}", v);
}

#[test]
fn catalog_upsamples_small_source() {
    let src = PixelImage { width: 1, height: 1, pixels: vec![10, 20, 30, 255] };
    let catalog = build_catalog(&src);
    let big = catalog.get(512).unwrap();
    assert_eq!(big.pixels.len(), 512 * 512 * 4);
    assert_eq!(&big.pixels[0..4], &[10, 20, 30, 255]);
    assert_eq!(&big.pixels[big.pixels.len() - 4..], &[10, 20, 30, 255]);
}

#[test]
fn insert_replaces_and_get_finds() {
    let mut catalog = SizeCatalog::new();
    assert_eq!(catalog.len(), 0);
    catalog.insert(2, numbered(2, 2));
    catalog.insert(3, numbered(3, 3));
    let mut other = numbered(2, 2);
    other.pixels[0] = 99;
    catalog.insert(2, other);
    assert_eq!(catalog.len(), 2);
    assert_eq!(catalog.get(2).unwrap().pixels[0], 99);
    assert_eq!(catalog.get(3).unwrap().width, 3);
    assert!(catalog.get(4).is_none());
}

#[test]
fn insert_refuses_what_is_not_a_square_of_its_key() {
    let mut catalog = SizeCatalog::new();
    assert!(catalog.insert(3, numbered(3, 3)));
    assert!(!catalog.insert(4, numbered(3, 3)));
    assert!(!catalog.insert(3, numbered(3, 4)));
    assert!(!catalog.insert(0, numbered(0, 0)));
    let short = PixelImage { width: 2, height: 2, pixels: vec![0; 15] };
    assert!(!catalog.insert(2, short));
    assert_eq!(catalog.len(), 1);
    assert!(catalog.contains(3));
}

#[test]
fn image_constructor_checks_the_buffer_length() {
    let img = PixelImage::new(2, 3, vec![7; 24]).unwrap();
    assert_eq!((img.width, img.height, img.pixels.len()), (2, 3, 24));
    assert!(img.holds_all_pixels());
    assert!(!img.is_square(2));
    assert!(PixelImage::new(2, 3, vec![7; 23]).is_none());
    assert!(PixelImage::new(2, 3, vec![7; 28]).is_none());
    assert!(PixelImage::new(0, 3, Vec::new()).is_some());
    assert!(PixelImage::new(65536, 65536, vec![0; 4]).is_none());
    assert!(PixelImage::new(2, 2, vec![0; 16]).unwrap().is_square(2));
}

#[test]
fn select_reports_first_missing_size() {
    let mut catalog = SizeCatalog::new();
    catalog.insert(2, numbered(2, 2));
    catalog.insert(5, numbered(5, 5));
    let found = select_sizes(&catalog, &[5, 2, 5]).unwrap();
    assert_eq!(found.len(), 3);
    assert_eq!((found[0].width, found[1].width, found[2].width), (5, 2, 5));
    assert_eq!(select_sizes(&catalog, &[5, 7, 2, 9]).unwrap_err(), IconError::MissingSize(7));
    assert_eq!(select_sizes(&catalog, &[9, 7]).unwrap_err(), IconError::MissingSize(9));
    assert!(select_sizes(&catalog, &[]).unwrap().is_empty());
}
