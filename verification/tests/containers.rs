use icon_builder::catalog::{build_catalog, SizeCatalog};
use icon_builder::error::IconError;
use icon_builder::icns::{
    blocks_fit, copy_block, fill_icns, icns_blocks, pack_icns, IconBlock, ICNS_SIZES,
};
use icon_builder::ico::{encode_frames, fill_ico, frames_fit, pack_ico, IcoFrame, ICO_SIZES};
use icon_builder::pixel::PixelImage;

fn gradient(edge: u32) -> PixelImage {
    let mut pixels = Vec::new();
    for y in 0..edge {
        for x in 0..edge {
            pixels.push((x * 255 / edge) as u8);
            pixels.push((y * 255 / edge) as u8);
            pixels.push(((x + y) % 256) as u8);
            pixels.push(if (x + y) % 3 == 0 { 128 } else { 255 });
        }
    }
    PixelImage { width: edge, height: edge, pixels }
}

fn catalog_of(sizes: &[u32]) -> SizeCatalog {
    let mut catalog = SizeCatalog::new();
    for &s in sizes {
        catalog.insert(s, gradient(s));
    }
    catalog
}

fn le16(b: &[u8], at: usize) -> usize {
    b[at] as usize + 256 * b[at + 1] as usize
}

fn le32(b: &[u8], at: usize) -> usize {
    b[at] as usize + 256 * b[at + 1] as usize + 65536 * b[at + 2] as usize
        + 16777216 * b[at + 3] as usize
}

fn be32(b: &[u8], at: usize) -> usize {
    16777216 * b[at] as usize + 65536 * b[at + 1] as usize + 256 * b[at + 2] as usize
        + b[at + 3] as usize
}

#[test]
fn ico_layout_is_exact_for_given_frames() {
    let frames = vec![
        IcoFrame { edge: 256, png: vec![1, 2, 3] },
        IcoFrame { edge: 16, png: vec![4, 5] },
    ];
    assert!(frames_fit(&frames));
    let file = pack_ico(&frames).unwrap();
    let expected: Vec<u8> = vec![
        0, 0, 1, 0, 2, 0, // header: reserved, type, count
        0, 0, 0, 0, 0, 0, 32, 0, 3, 0, 0, 0, 38, 0, 0, 0, // 256 written as 0
        16, 16, 0, 0, 0, 0, 32, 0, 2, 0, 0, 0, 41, 0, 0, 0, //
        1, 2, 3, 4, 5,
    ];
    assert_eq!(file, expected);
}

#[test]
fn ico_refuses_what_does_not_fit() {
    let none: Vec<IcoFrame> = Vec::new();
    assert!(!frames_fit(&none));
    assert_eq!(pack_ico(&none).unwrap_err(), IconError::IoError);
    let too_wide = vec![IcoFrame { edge: 257, png: vec![1] }];
    assert!(frames_fit(&too_wide));
    assert_eq!(pack_ico(&too_wide).unwrap_err(), IconError::IoError);
    let widest = vec![IcoFrame { edge: 256, png: Vec::new() }, IcoFrame { edge: 1, png: vec![9] }];
    assert!(pack_ico(&widest).is_ok());
    let no_pixels = PixelImage { width: 0, height: 0, pixels: Vec::new() };
    assert_eq!(encode_frames(&vec![&no_pixels]).unwrap_err(), IconError::IoError);
    assert!(encode_frames(&Vec::new()).unwrap().is_empty());
    let no_edge = vec![IcoFrame { edge: 0, png: vec![1] }];
    assert_eq!(pack_ico(&no_edge).unwrap_err(), IconError::IoError);
}

#[test]
fn ico_frames_are_png_streams_of_their_images() {
    let a = gradient(16);
    let b = gradient(32);
    let frames = encode_frames(&vec![&a, &b]).unwrap();
    assert_eq!(frames.len(), 2);
    assert_eq!((frames[0].edge, frames[1].edge), (16, 32));
    for (frame, src) in frames.iter().zip([&a, &b]) {
        assert_eq!(&frame.png[0..8], &[137, 80, 78, 71, 13, 10, 26, 10]);
        assert_eq!(&frame.png[8..16], &[0, 0, 0, 13, 73, 72, 68, 82]);
        assert_eq!(be32(&frame.png, 16), src.width as usize);
        assert_eq!(be32(&frame.png, 20), src.height as usize);
        assert_eq!((frame.png[24], frame.png[25]), (8, 6));
        let back = image::load_from_memory_with_format(&frame.png, image::ImageFormat::Png)
            .unwrap()
            .into_rgba8();
        assert_eq!(back.dimensions(), (src.width, src.height));
        assert_eq!(back.into_raw(), src.pixels);
    }
}

#[test]
fn ico_file_holds_four_frames_in_order() {
    let catalog = catalog_of(&[16, 32, 64, 256, 512, 128]);
    let file = fill_ico(&catalog, "icon.ico").unwrap();
    assert_eq!(file.name, "icon.ico");
    let b = &file.bytes;
    assert_eq!(&b[0..4], &[0, 0, 1, 0]);
    assert_eq!(le16(b, 4), 4);
    assert_eq!(ICO_SIZES, [256, 64, 32, 16]);
    let mut next = 6 + 16 * 4;
    for (i, &s) in ICO_SIZES.iter().enumerate() {
        let e = 6 + 16 * i;
        let declared = if b[e] == 0 { 256 } else { b[e] as u32 };
        assert_eq!(declared, s);
        assert_eq!(b[e], b[e + 1]);
        assert_eq!(le16(b, e + 6), 32);
        let (size, offset) = (le32(b, e + 8), le32(b, e + 12));
        assert_eq!(offset, next);
        next += size;
        let png = &b[offset..offset + size];
        let back = image::load_from_memory_with_format(png, image::ImageFormat::Png)
            .unwrap()
            .into_rgba8();
        assert_eq!(back.dimensions(), (s, s));
        assert_eq!(back.into_raw(), catalog.get(s).unwrap().pixels);
    }
    assert_eq!(next, b.len());
    let decoded = image::load_from_memory_with_format(b, image::ImageFormat::Ico).unwrap();
    assert_eq!((decoded.width(), decoded.height()), (256, 256));
}

#[test]
fn ico_name_gets_extension_only_without_dot() {
    let catalog = catalog_of(&[16, 32, 64, 256]);
    assert_eq!(fill_ico(&catalog, "icon").unwrap().name, "icon.ico");
    assert_eq!(fill_ico(&catalog, "app.icon").unwrap().name, "app.icon");
    assert_eq!(fill_icns(&catalog_of(&ICNS_SIZES), "icon").unwrap().name, "icon.icns");
    assert_eq!(fill_icns(&catalog_of(&ICNS_SIZES), "a.b").unwrap().name, "a.b");
}

#[test]
fn ico_reports_first_missing_size() {
    assert_eq!(
        fill_ico(&catalog_of(&[256, 32, 16]), "icon.ico").unwrap_err(),
        IconError::MissingSize(64)
    );
    assert_eq!(
        fill_ico(&catalog_of(&[64, 16]), "icon.ico").unwrap_err(),
        IconError::MissingSize(256)
    );
    assert_eq!(
        fill_ico(&SizeCatalog::new(), "icon.ico").unwrap_err(),
        IconError::MissingSize(256)
    );
    assert_eq!(
        fill_ico(&catalog_of(&[256, 64, 32]), "icon.ico").unwrap_err(),
        IconError::MissingSize(16)
    );
}

#[test]
fn icns_blocks_are_raw_pixels_of_exact_length() {
    let catalog = catalog_of(&[512, 256, 128, 32, 16, 64]);
    let blocks = icns_blocks(&catalog).unwrap();
    assert_eq!(blocks.len(), 5);
    assert_eq!(ICNS_SIZES, [512, 256, 128, 32, 16]);
    for (block, &s) in blocks.iter().zip(ICNS_SIZES.iter()) {
        assert_eq!(block.edge, s);
        assert_eq!(block.rgba.len(), (s * s * 4) as usize);
        assert_eq!(block.rgba, catalog.get(s).unwrap().pixels);
    }
}

#[test]
fn icns_reports_first_missing_size() {
    assert_eq!(
        icns_blocks(&catalog_of(&[512, 128, 32])).unwrap_err(),
        IconError::MissingSize(256)
    );
    assert_eq!(
        fill_icns(&catalog_of(&[512, 256, 128, 32]), "icon.icns").unwrap_err(),
        IconError::MissingSize(16)
    );
    assert_eq!(
        fill_icns(&SizeCatalog::new(), "icon.icns").unwrap_err(),
        IconError::MissingSize(512)
    );
}

#[test]
fn copy_block_copies_byte_for_byte() {
    let src = gradient(7);
    let block = copy_block(&src);
    assert_eq!(block.edge, 7);
    assert_eq!(block.rgba, src.pixels);
}

#[test]
fn icns_file_is_magic_length_and_five_raw_chunks() {
    let catalog = catalog_of(&ICNS_SIZES);
    let file = fill_icns(&catalog, "icon.icns").unwrap();
    let b = &file.bytes;
    assert_eq!(&b[0..4], b"icns");
    assert_eq!(be32(b, 4), b.len());
    assert_eq!(b.len(), 8 + 5 * 8 + 4 * (512 * 512 + 256 * 256 + 128 * 128 + 32 * 32 + 16 * 16));
    let codes: [&[u8; 4]; 5] = [b"ic09", b"ic08", b"it32", b"il32", b"is32"];
    let mut at = 8;
    for (i, &s) in ICNS_SIZES.iter().enumerate() {
        assert_eq!(&b[at..at + 4], codes[i]);
        let len = be32(b, at + 4);
        assert_eq!(len, 8 + (s * s * 4) as usize);
        assert_eq!(&b[at + 8..at + len], &catalog.get(s).unwrap().pixels[..]);
        at += len;
    }
    assert_eq!(at, b.len());
}

#[test]
fn icns_file_reads_back_as_five_elements() {
    let catalog = catalog_of(&ICNS_SIZES);
    let file = fill_icns(&catalog, "icon.icns").unwrap();
    let family = icns::IconFamily::read(std::io::Cursor::new(&file.bytes)).unwrap();
    assert_eq!(family.elements.len(), 5);
    let types = [
        icns::IconType::RGBA32_512x512,
        icns::IconType::RGBA32_256x256,
        icns::IconType::RGB24_128x128,
        icns::IconType::RGB24_32x32,
        icns::IconType::RGB24_16x16,
    ];
    for ((element, icon_type), &s) in family.elements.iter().zip(types).zip(ICNS_SIZES.iter()) {
        assert_eq!(element.icon_type(), Some(icon_type));
        assert_eq!(icon_type.pixel_width(), s);
        assert_eq!(element.data.len(), (s * s * 4) as usize);
        assert_eq!(element.data, catalog.get(s).unwrap().pixels);
    }
}

#[test]
fn icns_pack_is_exact_for_one_block() {
    let block = IconBlock { edge: 16, rgba: (0..1024u32).map(|i| (i % 251) as u8).collect() };
    let payload = block.rgba.clone();
    let file = pack_icns(&vec![block]).unwrap();
    let mut expected = vec![0x69, 0x63, 0x6e, 0x73, 0, 0, 4, 16];
    expected.extend_from_slice(b"is32");
    expected.extend_from_slice(&[0, 0, 4, 8]);
    expected.extend_from_slice(&payload);
    assert_eq!(file, expected);
}

#[test]
fn icns_pack_appends_blocks_in_order() {
    let one = pack_icns(&vec![copy_block(&gradient(16))]).unwrap();
    let two = pack_icns(&vec![copy_block(&gradient(16)), copy_block(&gradient(48))]).unwrap();
    assert_eq!(&two[8..one.len()], &one[8..]);
    assert_eq!(&two[one.len()..one.len() + 4], b"ih32");
    assert_eq!(two.len(), one.len() + 8 + 48 * 48 * 4);
    assert_eq!(be32(&two, 4), two.len());
    let empty = pack_icns(&Vec::new()).unwrap();
    assert_eq!(empty, vec![0x69, 0x63, 0x6e, 0x73, 0, 0, 0, 8]);
    let both = pack_icns(&vec![copy_block(&gradient(64)), copy_block(&gradient(1024))]).unwrap();
    assert_eq!(&both[8..12], b"icp6");
    assert_eq!(&both[16 + 64 * 64 * 4..20 + 64 * 64 * 4], b"ic10");
}

#[test]
fn icns_refuses_unknown_edge_and_wrong_length() {
    assert!(blocks_fit(&vec![copy_block(&gradient(20))]));
    assert_eq!(pack_icns(&vec![copy_block(&gradient(20))]).unwrap_err(), IconError::IoError);
    let short = IconBlock { edge: 16, rgba: vec![0; 16 * 16 * 4 - 1] };
    assert!(!short.holds_all_pixels());
    assert_eq!(pack_icns(&vec![short]).unwrap_err(), IconError::IoError);
    let long = IconBlock { edge: 16, rgba: vec![0; 16 * 16 * 4 + 4] };
    assert_eq!(pack_icns(&vec![long]).unwrap_err(), IconError::IoError);
    let huge = IconBlock { edge: 20000, rgba: Vec::new() };
    assert_eq!(pack_icns(&vec![huge]).unwrap_err(), IconError::IoError);
    assert!(copy_block(&gradient(16)).holds_all_pixels());
}

#[test]
fn containers_are_repeatable() {
    let src = gradient(40);
    let first = build_catalog(&src);
    let second = build_catalog(&src);
    assert_eq!(
        fill_ico(&first, "icon.ico").unwrap().bytes,
        fill_ico(&second, "icon.ico").unwrap().bytes
    );
    assert_eq!(
        fill_icns(&first, "icon.icns").unwrap().bytes,
        fill_icns(&second, "icon.icns").unwrap().bytes
    );
}
