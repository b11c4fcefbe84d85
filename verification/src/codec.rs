//! The image codecs the pipeline relies on: decoding, resampling and PNG
//! encoding. Their results are taken on trust; everything built on top of
//! them is proved against the contracts stated here.

use crate::pixel::PixelImage;
use vstd::prelude::*;

verus! {

/// The PNG stream that the encoder writes for a `width` x `height` RGBA8
/// buffer.
pub uninterp spec fn png_encoding(width: u32, height: u32, rgba: Seq<u8>) -> Seq<u8>;

/// The four bytes of `v`, most significant first.
pub open spec fn be32(v: u32) -> Seq<u8> {
    seq![
        ((v / 0x100_0000) % 0x100) as u8,
        ((v / 0x1_0000) % 0x100) as u8,
        ((v / 0x100) % 0x100) as u8,
        (v % 0x100) as u8,
    ]
}

/// How every PNG stream of an 8-bit RGBA image of the given dimensions
/// begins: the signature, then the length and tag of the header chunk, the
/// width, the height, the bit depth and the colour type.
pub open spec fn png_header(width: u32, height: u32) -> Seq<u8> {
    seq![137u8, 80, 78, 71, 13, 10, 26, 10, 0, 0, 0, 13, 73, 72, 68, 82] + be32(width) + be32(
        height,
    ) + seq![8u8, 6u8]
}

/// `bytes` begins as a PNG stream of an 8-bit RGBA image of the given
/// dimensions does.
pub open spec fn is_png_of(bytes: Seq<u8>, width: u32, height: u32) -> bool {
    bytes.len() >= 26 && bytes.subrange(0, 26) == png_header(width, height)
}

/// The 32-bit big-endian number at `at`.
pub open spec fn read_be32(bytes: Seq<u8>, at: int) -> int {
    0x100_0000 * bytes[at] + 0x1_0000 * bytes[at + 1] + 0x100 * bytes[at + 2] + bytes[at + 3]
}

/// Width that the header chunk of a PNG stream declares.
pub open spec fn png_declared_width(bytes: Seq<u8>) -> int {
    read_be32(bytes, 16)
}

/// Height that the header chunk of a PNG stream declares.
pub open spec fn png_declared_height(bytes: Seq<u8>) -> int {
    read_be32(bytes, 20)
}

/// Reading four big-endian bytes gives back the number they were made of.
pub proof fn lemma_be32_round_trip(v: u32)
    ensures
        be32(v).len() == 4,
        read_be32(be32(v), 0) == v,
{
}

/// A stream that begins as a PNG of `width` x `height` does declares exactly
/// these dimensions to its reader, after the signature and the tag of the
/// header chunk.
pub proof fn lemma_png_declares_dimensions(bytes: Seq<u8>, width: u32, height: u32)
    requires
        is_png_of(bytes, width, height),
    ensures
        bytes.subrange(0, 8) == seq![137u8, 80u8, 78u8, 71u8, 13u8, 10u8, 26u8, 10u8],
        bytes.subrange(12, 16) == seq![73u8, 72u8, 68u8, 82u8],
        png_declared_width(bytes) == width,
        png_declared_height(bytes) == height,
        bytes[24] == 8,
        bytes[25] == 6,
{
    let head = bytes.subrange(0, 26);
    let expected = png_header(width, height);
    lemma_be32_round_trip(width);
    lemma_be32_round_trip(height);
    assert forall|k: int| 0 <= k < 26 implies bytes[k] == #[trigger] expected[k] by {
        assert(head[k] == bytes[k]);
    }
    assert(expected[16] == be32(width)[0] && expected[17] == be32(width)[1] && expected[18]
        == be32(width)[2] && expected[19] == be32(width)[3]);
    assert(expected[20] == be32(height)[0] && expected[21] == be32(height)[1] && expected[22]
        == be32(height)[2] && expected[23] == be32(height)[3]);
    assert(bytes[24] == expected[24] && bytes[25] == expected[25]);
    assert(expected[24] == 8 && expected[25] == 6);
    assert(bytes.subrange(0, 8) =~= seq![137u8, 80u8, 78u8, 71u8, 13u8, 10u8, 26u8, 10u8]) by {
        assert forall|k: int| 0 <= k < 8 implies bytes.subrange(0, 8)[k] == expected[k] by {}
    }
    assert(bytes.subrange(12, 16) =~= seq![73u8, 72u8, 68u8, 82u8]) by {
        assert forall|k: int| 0 <= k < 4 implies bytes.subrange(12, 16)[k] == expected[12 + k] by {}
    }
}

/// What the decoder makes of the bytes of a file at `path`: the width, the
/// height and the RGBA8 bytes of the image, or the text of its failure.
pub uninterp spec fn decoded(path: Seq<char>, bytes: Seq<u8>) -> Result<
    (u32, u32, Seq<u8>),
    Seq<char>,
>;

/// Calls `image::io::Reader::decode` on an in-memory reader whose format is
/// the one `image::ImageFormat::from_path` finds for the extension of
/// `path`, if any, and converts the result to RGBA8.
///
/// The result is a function of the path and the bytes. A decoded image
/// holds exactly `width * height` pixels; a failure carries the decoder's
/// own description of it.
#[verifier::external_body]
pub(crate) fn decode_rgba(path: &str, bytes: &[u8]) -> (r: Result<PixelImage, String>)
    ensures
        r is Ok <==> decoded(path@, bytes@) is Ok,
        r is Ok ==> r->Ok_0.wf() && (r->Ok_0.width, r->Ok_0.height, r->Ok_0.pixels@) == decoded(
            path@,
            bytes@,
        )->Ok_0,
        r is Err ==> r->Err_0@ == decoded(path@, bytes@)->Err_0,
{
    let mut reader = image::io::Reader::new(std::io::Cursor::new(bytes));
    if let Ok(format) = image::ImageFormat::from_path(path) {
        reader.set_format(format);
    }
    match reader.decode() {
        Ok(img) => {
            let (width, height) = (img.width(), img.height());
            Ok(PixelImage { width, height, pixels: img.into_rgba8().into_raw() })
        },
        Err(err) => Err(format!("{:?}", err)),
    }
}

/// Calls `image::imageops::resize` with the Gaussian filter.
///
/// The filter works in floating point, whose rounding may differ between
/// machines, so the resampled pixels are left unspecified. What is claimed:
/// the result is `edge` x `edge`, and a source that already has that size is
/// copied unchanged. The source must hold at least one pixel, and the
/// intermediate and final buffers must be addressable.
#[verifier::external_body]
pub(crate) fn resample(src: &PixelImage, edge: u32) -> (r: PixelImage)
    requires
        src.wf(),
        src.width > 0,
        src.height > 0,
        edge > 0,
        4 * src.width * edge <= usize::MAX,
        4 * edge * edge <= usize::MAX,
    ensures
        r.is_square_of(edge as int),
        src.width == edge && src.height == edge ==> r.pixels@ == src.pixels@,
{
    let buf = image::RgbaImage::from_raw(src.width, src.height, src.pixels.clone()).unwrap();
    let out = image::imageops::resize(&buf, edge, edge, image::imageops::FilterType::Gaussian);
    PixelImage { width: edge, height: edge, pixels: out.into_raw() }
}

/// Calls `ImageBuffer::write_to` of the `image` crate with the PNG format, on
/// an in-memory writer.
///
/// The encoder refuses an image without pixels and nothing else: the
/// writer is in memory and the buffer has the length the dimensions ask
/// for. The stream is a function of the dimensions and the pixel bytes, and
/// it begins with the PNG signature and a header chunk that declares these
/// dimensions, 8 bits per channel and the RGBA colour type.
#[verifier::external_body]
pub(crate) fn png_encode(img: &PixelImage) -> (r: Option<Vec<u8>>)
    requires
        img.wf(),
    ensures
        (r is Some) == (img.width != 0 && img.height != 0),
        r is Some ==> r->0@ == png_encoding(img.width, img.height, img.pixels@),
        r is Some ==> is_png_of(r->0@, img.width, img.height),
{
    let buf = image::RgbaImage::from_raw(img.width, img.height, img.pixels.clone())?;
    let mut out = std::io::Cursor::new(Vec::new());
    buf.write_to(&mut out, image::ImageOutputFormat::Png).ok()?;
    Some(out.into_inner())
}

/// The standard, padded base64 text of `bytes`.
pub uninterp spec fn base64_text(bytes: Seq<u8>) -> Seq<char>;

/// Length of the padded base64 text of `len` bytes.
pub open spec fn base64_len(len: int) -> int {
    (len / 3) * 4 + if len % 3 > 0 {
        4int
    } else {
        0int
    }
}

/// Calls `Engine::encode` of the `base64` crate on its `STANDARD` engine.
///
/// The text is a function of the bytes, four characters for every three
/// bytes or part of three. The encoder gives up when the length of the text
/// does not fit a machine word, hence the precondition.
#[verifier::external_body]
pub(crate) fn base64_encode(bytes: &Vec<u8>) -> (r: String)
    requires
        base64_len(bytes@.len() as int) <= usize::MAX,
    ensures
        r@ == base64_text(bytes@),
        r@.len() == base64_len(bytes@.len() as int),
{
    base64::Engine::encode(&base64::engine::general_purpose::STANDARD, bytes)
}

} // verus!
