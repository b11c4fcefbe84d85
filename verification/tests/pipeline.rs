use icon_builder::catalog::{build_catalog, SizeCatalog};
use icon_builder::error::IconError;
use icon_builder::named_png::{fill_pngs, png_targets, PngTarget};
use icon_builder::names::{has_dot, with_default_extension};
use icon_builder::pipeline::{
    build_from_image, build_icons_sync, get_web_img_png_base64, pack_all, preview_of,
};
use icon_builder::pixel::PixelImage;

fn plain(width: u32, height: u32) -> PixelImage {
    let mut pixels = Vec::new();
    for y in 0..height {
        for x in 0..width {
            pixels.push((x % 251) as u8);
            pixels.push((y % 241) as u8);
            pixels.push(((x / 4 + y / 4) % 256) as u8);
            pixels.push(255);
        }
    }
    PixelImage { width, height, pixels }
}

fn png_bytes(img: &PixelImage) -> Vec<u8> {
    let mut out = std::io::Cursor::new(Vec::new());
    image::write_buffer_with_format(
        &mut out,
        &img.pixels,
        img.width,
        img.height,
        image::ColorType::Rgba8,
        image::ImageOutputFormat::Png,
    )
    .unwrap();
    out.into_inner()
}

fn jpeg_bytes(width: u32, height: u32) -> Vec<u8> {
    let mut rgb = Vec::new();
    for y in 0..height {
        for x in 0..width {
            rgb.push((x / 4) as u8);
            rgb.push((y / 3) as u8);
            rgb.push(((x + y) / 8) as u8);
        }
    }
    let mut out = std::io::Cursor::new(Vec::new());
    image::write_buffer_with_format(
        &mut out,
        &rgb,
        width,
        height,
        image::ColorType::Rgb8,
        image::ImageOutputFormat::Jpeg(90),
    )
    .unwrap();
    out.into_inner()
}

fn dimensions(png: &[u8]) -> (u32, u32) {
    let img = image::load_from_memory_with_format(png, image::ImageFormat::Png).unwrap();
    (img.width(), img.height())
}

const FILE_NAMES: [(&str, u32); 14] = [
    ("32x32.png", 32),
    ("128x128.png", 128),
    ("128x128@2x.png", 256),
    ("Square30x30Logo.png", 30),
    ("Square44x44Logo.png", 44),
    ("Square71x71Logo.png", 71),
    ("Square89x89Logo.png", 89),
    ("Square107x107Logo.png", 107),
    ("Square142x142Logo.png", 142),
    ("Square150x150Logo.png", 150),
    ("Square284x284Logo.png", 284),
    ("Square310x310Logo.png", 310),
    ("icon.png", 512),
    ("StoreLogo.png", 50),
];

#[test]
fn extension_is_appended_only_without_dot() {
    assert_eq!(with_default_extension("icon", ".ico"), "icon.ico");
    assert_eq!(with_default_extension("icon.png", ".png"), "icon.png");
    assert_eq!(with_default_extension("128x128@2x", ".png"), "128x128@2x.png");
    assert_eq!(with_default_extension("", ".png"), ".png");
    assert_eq!(with_default_extension(".", ".png"), ".");
    assert_eq!(with_default_extension("a.", ".png"), "a.");
    assert_eq!(with_default_extension("Größe", ".png"), "Größe.png");
    assert!(has_dot("a.b"));
    assert!(has_dot("."));
    assert!(!has_dot("ab"));
    assert!(!has_dot(""));
}

#[test]
fn error_messages_are_fixed() {
    assert_eq!(IconError::NotFound.message(), "file not found");
    assert_eq!(
        IconError::DecodeError.message(),
        "the file is not an image in a supported format"
    );
    assert_eq!(IconError::InvalidImage.message(), "the image has no pixels");
    assert_eq!(
        IconError::MissingSize(64).message(),
        "a required icon size is missing from the catalog"
    );
    assert_eq!(
        IconError::IoError.message(),
        "an icon file could not be encoded or written"
    );
}

#[test]
fn png_table_is_the_fixed_mapping() {
    let targets = png_targets();
    let listed: Vec<(u32, &str)> = targets.iter().map(|t| (t.edge, t.name.as_str())).collect();
    assert_eq!(
        listed,
        vec![
            (32, "32x32"),
            (128, "128x128"),
            (256, "128x128@2x"),
            (30, "Square30x30Logo"),
            (44, "Square44x44Logo"),
            (71, "Square71x71Logo"),
            (89, "Square89x89Logo"),
            (107, "Square107x107Logo"),
            (142, "Square142x142Logo"),
            (150, "Square150x150Logo"),
            (284, "Square284x284Logo"),
            (310, "Square310x310Logo"),
            (512, "icon.png"),
            (50, "StoreLogo"),
        ]
    );
}

#[test]
fn pngs_skip_missing_sizes_and_keep_order() {
    let mut catalog = SizeCatalog::new();
    catalog.insert(8, plain(8, 8));
    catalog.insert(4, plain(4, 4));
    let targets = vec![
        PngTarget { edge: 4, name: String::from("small") },
        PngTarget { edge: 5, name: String::from("absent") },
        PngTarget { edge: 8, name: String::from("big.png") },
        PngTarget { edge: 4, name: String::from("again.dat") },
        PngTarget { edge: 9, name: String::from("gone") },
    ];
    let batch = fill_pngs(&catalog, &targets).unwrap();
    assert_eq!(batch.skipped, vec![1, 4]);
    let names: Vec<&str> = batch.files.iter().map(|f| f.name.as_str()).collect();
    assert_eq!(names, vec!["small.png", "big.png", "again.dat"]);
    assert_eq!(batch.files[0].bytes, png_bytes(&plain(4, 4)));
    assert_eq!(batch.files[1].bytes, png_bytes(&plain(8, 8)));
    assert_eq!(batch.files[2].bytes, batch.files[0].bytes);
    assert_ne!(batch.files[0].bytes, plain(4, 4).pixels);
}

#[test]
fn pngs_of_empty_catalog_are_all_skipped() {
    let batch = fill_pngs(&SizeCatalog::new(), &png_targets()).unwrap();
    assert!(batch.files.is_empty());
    assert_eq!(batch.skipped, (0..14).collect::<Vec<usize>>());
    let none = fill_pngs(&SizeCatalog::new(), &Vec::new()).unwrap();
    assert!(none.files.is_empty() && none.skipped.is_empty());
}

#[test]
fn emitted_pngs_decode_to_their_declared_dimensions() {
    let catalog = build_catalog(&plain(64, 64));
    let batch = fill_pngs(&catalog, &png_targets()).unwrap();
    assert!(batch.skipped.is_empty());
    assert_eq!(batch.files.len(), 14);
    for (file, (name, edge)) in batch.files.iter().zip(FILE_NAMES) {
        assert_eq!(file.name, name);
        assert_eq!(dimensions(&file.bytes), (edge, edge));
        let decoded = image::load_from_memory(&file.bytes).unwrap().into_rgba8();
        assert_eq!(decoded.into_raw(), catalog.get(edge).unwrap().pixels);
    }
}

#[test]
fn missing_source_is_not_found() {
    let failure = build_icons_sync("gone.png", None).unwrap_err();
    assert_eq!(failure.error, IconError::NotFound);
    assert_eq!(failure.cause, "");
    assert_eq!(failure.message(), "file not found");
    assert_eq!(get_web_img_png_base64("gone.png", None).unwrap_err().error, IconError::NotFound);
}

#[test]
fn empty_or_corrupt_source_is_decode_error() {
    for name in ["a.png", "a.jpg", "a.bmp", "a.gif", "a.ico", "a.tga", "a.tiff", "a.webp"] {
        let failure = build_icons_sync(name, Some(&[])).unwrap_err();
        assert_eq!(failure.error, IconError::DecodeError);
        assert!(!failure.cause.is_empty());
    }
    let failure = build_icons_sync("a.png", Some(b"certainly not an image")).unwrap_err();
    assert_eq!(failure.error, IconError::DecodeError);
    assert!(failure.message().starts_with("the file is not an image in a supported format: "));
    assert!(failure.message().ends_with(&failure.cause));
    let mut broken = png_bytes(&plain(8, 8));
    broken.truncate(30);
    assert_eq!(build_icons_sync("a.png", Some(&broken)).unwrap_err().error, IconError::DecodeError);
    assert_eq!(
        get_web_img_png_base64("a.png", Some(&[])).unwrap_err().error,
        IconError::DecodeError
    );
}

#[test]
fn format_goes_by_the_extension() {
    let png = png_bytes(&plain(8, 8));
    assert!(build_icons_sync("dir/picture.PNG", Some(&png)).is_ok());
    assert_eq!(
        build_icons_sync("picture.jpg", Some(&png)).unwrap_err().error,
        IconError::DecodeError
    );
    assert_eq!(build_icons_sync("picture", Some(&png)).unwrap_err().error, IconError::DecodeError);
    assert_eq!(
        build_icons_sync("picture.txt", Some(&png)).unwrap_err().error,
        IconError::DecodeError
    );
}

#[test]
fn tga_source_is_decoded() {
    let img = plain(5, 3);
    let mut out = std::io::Cursor::new(Vec::new());
    image::write_buffer_with_format(
        &mut out,
        &img.pixels,
        5,
        3,
        image::ColorType::Rgba8,
        image::ImageOutputFormat::Tga,
    )
    .unwrap();
    let text = get_web_img_png_base64("picture.tga", Some(&out.into_inner())).unwrap();
    assert_eq!(text, preview_of(&img).unwrap());
}

#[test]
fn image_without_pixels_is_invalid() {
    let none = PixelImage { width: 0, height: 0, pixels: Vec::new() };
    assert_eq!(build_from_image(&none).unwrap_err(), IconError::InvalidImage);
    let flat = PixelImage { width: 3, height: 0, pixels: Vec::new() };
    assert_eq!(build_from_image(&flat).unwrap_err(), IconError::InvalidImage);
}

#[test]
fn jpeg_source_yields_the_whole_icon_set() {
    let source = jpeg_bytes(1024, 768);
    let decoded = image::load_from_memory(&source).unwrap();
    assert_eq!((decoded.width(), decoded.height()), (1024, 768));
    let set = build_icons_sync("photo.jpg", Some(&source)).unwrap();
    let ico = set.ico.unwrap();
    let icns = set.icns.unwrap();
    let pngs = set.pngs.unwrap();
    assert_eq!(ico.name, "icon.ico");
    assert_eq!(icns.name, "icon.icns");
    assert!(pngs.skipped.is_empty());
    let names: Vec<&str> = pngs.files.iter().map(|f| f.name.as_str()).collect();
    let expected: Vec<&str> = FILE_NAMES.iter().map(|(n, _)| *n).collect();
    assert_eq!(names, expected);
    assert_eq!(2 + pngs.files.len(), 16);
    for (file, (_, edge)) in pngs.files.iter().zip(FILE_NAMES) {
        assert_eq!(dimensions(&file.bytes), (edge, edge));
    }
    assert_eq!(&ico.bytes[0..6], &[0, 0, 1, 0, 4, 0]);
    assert_eq!(&icns.bytes[0..4], b"icns");
    assert_eq!(icns.bytes.len(), 1381424);
}

#[test]
fn build_crops_before_it_resamples() {
    let mut wide = plain(768, 512);
    for y in 0..512u32 {
        for x in 0..768u32 {
            let at = ((y * 768 + x) * 4) as usize;
            let inside = x >= 128 && x < 640;
            wide.pixels[at] = if inside { 200 } else { 0 };
            wide.pixels[at + 1] = if inside { 100 } else { 0 };
            wide.pixels[at + 2] = if inside { 50 } else { 0 };
        }
    }
    let set = build_from_image(&wide).unwrap();
    let pngs = set.pngs.unwrap();
    let icon = pngs.files.iter().find(|f| f.name == "icon.png").unwrap();
    let img = image::load_from_memory(&icon.bytes).unwrap().into_rgba8();
    assert_eq!(img.dimensions(), (512, 512));
    assert!(img.pixels().all(|p| p.0 == [200, 100, 50, 255]));
}

#[test]
fn build_is_repeatable() {
    let source = png_bytes(&plain(90, 60));
    let a = build_icons_sync("a.png", Some(&source)).unwrap();
    let b = build_icons_sync("a.png", Some(&source)).unwrap();
    assert_eq!(a.ico.unwrap().bytes, b.ico.unwrap().bytes);
    assert_eq!(a.icns.unwrap().bytes, b.icns.unwrap().bytes);
    let (pa, pb) = (a.pngs.unwrap(), b.pngs.unwrap());
    for (x, y) in pa.files.iter().zip(pb.files.iter()) {
        assert_eq!(x.name, y.name);
        assert_eq!(x.bytes, y.bytes);
    }
}

#[test]
fn every_packer_runs_on_its_own() {
    let mut catalog = SizeCatalog::new();
    for s in [256u32, 64, 32, 16] {
        catalog.insert(s, plain(s, s));
    }
    let set = pack_all(&catalog);
    assert_eq!(set.icns.unwrap_err(), IconError::MissingSize(512));
    assert_eq!(set.ico.unwrap().name, "icon.ico");
    let pngs = set.pngs.unwrap();
    let names: Vec<&str> = pngs.files.iter().map(|f| f.name.as_str()).collect();
    assert_eq!(names, vec!["32x32.png", "128x128@2x.png"]);
    assert_eq!(pngs.skipped, vec![1, 3, 4, 5, 6, 7, 8, 9, 10, 11, 12, 13]);
}

#[test]
fn preview_is_base64_of_the_png() {
    let img = PixelImage { width: 2, height: 1, pixels: vec![255, 0, 0, 255, 0, 0, 255, 128] };
    let text = preview_of(&img).unwrap();
    let png = png_bytes(&img);
    assert!(text.starts_with("iVBORw0KGgoAAAANSUhEUgAAAAIAAAABCAYAAA"));
    assert_eq!(text.len(), (png.len() + 2) / 3 * 4);
    let back = base64::Engine::decode(&base64::engine::general_purpose::STANDARD, &text).unwrap();
    assert_eq!(back, png);
    let from_source = get_web_img_png_base64("a.png", Some(&png)).unwrap();
    assert_eq!(from_source, text);
}

#[test]
fn preview_keeps_the_source_dimensions() {
    let text = get_web_img_png_base64("a.jpeg", Some(&jpeg_bytes(40, 30))).unwrap();
    let png = base64::Engine::decode(&base64::engine::general_purpose::STANDARD, &text).unwrap();
    assert_eq!(dimensions(&png), (40, 30));
}

#[test]
fn preview_of_nothing_fails() {
    let none = PixelImage { width: 0, height: 0, pixels: Vec::new() };
    assert_eq!(preview_of(&none).unwrap_err(), IconError::IoError);
}
