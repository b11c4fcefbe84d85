//! The Windows icon container: a directory of frames, each an embedded PNG.

use crate::catalog::{first_missing, lemma_first_missing, select_sizes, SizeCatalog};
use crate::codec::{is_png_of, png_encode, png_encoding};
use crate::error::IconError;
use crate::names::{completed_name, with_default_extension, NamedFile};
use crate::pixel::PixelImage;
use vstd::prelude::*;

verus! {

/// The edge lengths stored in the container, in file order.
pub const ICO_SIZES: [u32; 4] = [256, 64, 32, 16];

/// The container's edge lengths as a sequence.
pub open spec fn ico_sizes() -> Seq<u32> {
    seq![256u32, 64u32, 32u32, 16u32]
}

/// One frame of the container: the edge length it declares and its PNG
/// stream.
#[derive(Debug)]
pub struct IcoFrame {
    pub edge: u32,
    pub png: Vec<u8>,
}

/// A frame as a pair of its declared edge and its bytes.
pub type FrameView = (u32, Seq<u8>);

/// The frames of `frames` as pairs of declared edge and bytes.
pub open spec fn frame_views(frames: Seq<IcoFrame>) -> Seq<FrameView> {
    Seq::new(frames.len(), |i: int| (frames[i].edge, frames[i].png@))
}

/// The two bytes of `v`, least significant first.
pub open spec fn le16(v: int) -> Seq<u8> {
    seq![(v % 0x100) as u8, ((v / 0x100) % 0x100) as u8]
}

/// The four bytes of `v`, least significant first.
pub open spec fn le32(v: int) -> Seq<u8> {
    seq![
        (v % 0x100) as u8,
        ((v / 0x100) % 0x100) as u8,
        ((v / 0x1_0000) % 0x100) as u8,
        ((v / 0x100_0000) % 0x100) as u8,
    ]
}

/// Length of the file header.
pub open spec fn ico_header_len() -> int {
    6
}

/// Length of one directory entry.
pub open spec fn ico_entry_len() -> int {
    16
}

/// Total length of the first `upto` frames' streams.
pub open spec fn payload_len(frames: Seq<FrameView>, upto: int) -> int
    decreases upto,
{
    if upto <= 0 {
        0
    } else {
        payload_len(frames, upto - 1) + frames[upto - 1].1.len()
    }
}

/// Where the stream of frame `i` starts in the file.
pub open spec fn frame_offset(frames: Seq<FrameView>, i: int) -> int {
    ico_header_len() + ico_entry_len() * frames.len() + payload_len(frames, i)
}

/// The directory entry of a frame: width and height as one byte each (256
/// is written as 0), no palette, a reserved byte, no colour planes, 32 bits
/// per pixel, then the stream's length and its offset in the file.
pub open spec fn ico_entry(edge: u32, size: int, offset: int) -> Seq<u8> {
    seq![(edge % 0x100) as u8, (edge % 0x100) as u8, 0u8, 0u8, 0u8, 0u8, 32u8, 0u8] + le32(size)
        + le32(offset)
}

/// The directory entries of the first `upto` frames.
pub open spec fn ico_directory(frames: Seq<FrameView>, upto: int) -> Seq<u8>
    decreases upto,
{
    if upto <= 0 {
        Seq::empty()
    } else {
        ico_directory(frames, upto - 1) + ico_entry(
            frames[upto - 1].0,
            frames[upto - 1].1.len() as int,
            frame_offset(frames, upto - 1),
        )
    }
}

/// The streams of the first `upto` frames, one after the other.
pub open spec fn ico_payload(frames: Seq<FrameView>, upto: int) -> Seq<u8>
    decreases upto,
{
    if upto <= 0 {
        Seq::empty()
    } else {
        ico_payload(frames, upto - 1) + frames[upto - 1].1
    }
}

/// The whole file: a reserved word, the type word (1, an icon), the number
/// of frames, the directory, then the streams.
pub open spec fn ico_file(frames: Seq<FrameView>) -> Seq<u8> {
    seq![0u8, 0u8, 1u8, 0u8] + le16(frames.len() as int) + ico_directory(
        frames,
        frames.len() as int,
    ) + ico_payload(frames, frames.len() as int)
}

/// The container can hold `frames`: their number fits the 16-bit count and
/// every offset fits 32 bits.
pub open spec fn ico_fits(frames: Seq<FrameView>) -> bool {
    1 <= frames.len() <= 0xffff && frame_offset(frames, frames.len() as int) <= 0xffff_ffff
}

/// Every frame declares an edge that the directory can hold: 1 to 256.
pub open spec fn edges_storable(frames: Seq<FrameView>) -> bool {
    forall|i: int| 0 <= i < frames.len() ==> 1 <= (#[trigger] frames[i]).0 <= 256
}

/// Calls `IcoFrame::with_encoded` of the `image` crate for each frame, with
/// the RGBA8 colour type, and `IcoEncoder::encode_images` on an in-memory
/// writer.
///
/// The encoder refuses a frame whose edge is outside 1 to 256 and nothing
/// else. When it succeeds, the file is laid out as `ico_file` says. The
/// encoder computes the count and the offsets in 16 and 32 bits, hence the
/// precondition.
#[verifier::external_body]
pub(crate) fn ico_container(frames: &Vec<IcoFrame>) -> (r: Option<Vec<u8>>)
    requires
        ico_fits(frame_views(frames@)),
    ensures
        (r is Some) == edges_storable(frame_views(frames@)),
        r is Some ==> r->0@ == ico_file(frame_views(frames@)),
{
    let entries: Result<Vec<_>, _> = frames.iter().map(
        |f| image::codecs::ico::IcoFrame::with_encoded(&f.png[..], f.edge, f.edge, image::ColorType::Rgba8),
    ).collect();
    let mut out: Vec<u8> = Vec::new();
    image::codecs::ico::IcoEncoder::new(&mut out).encode_images(&entries.ok()?).ok()?;
    Some(out)
}

/// The streams of more frames are at least as long as those of fewer.
pub proof fn lemma_payload_len_grows(frames: Seq<FrameView>, i: int, j: int)
    requires
        0 <= i <= j,
    ensures
        0 <= payload_len(frames, i) <= payload_len(frames, j),
    decreases j,
{
    if i < j {
        lemma_payload_len_grows(frames, i, j - 1);
    } else if i > 0 {
        lemma_payload_len_grows(frames, i - 1, i - 1);
        lemma_payload_len_grows(frames, 0, i - 1);
    }
}

/// Whether the container can hold `frames`.
pub fn frames_fit(frames: &Vec<IcoFrame>) -> (r: bool)
    ensures
        r == ico_fits(frame_views(frames@)),
{
    let n: usize = frames.len();
    if n < 1 || n > 0xffff {
        return false;
    }
    let ghost views = frame_views(frames@);
    let mut total: u64 = 6 + 16 * (n as u64);
    let mut i: usize = 0;
    while i < n
        invariant
            0 <= i <= n,
            1 <= n <= 0xffff,
            n == frames@.len(),
            views == frame_views(frames@),
            total == frame_offset(views, i as int),
            total <= 0xffff_ffff,
        decreases n - i,
    {
        let len: usize = frames[i].png.len();
        proof {
            assert(views[i as int].1.len() == len);
            assert(payload_len(views, i + 1) == payload_len(views, i as int) + len);
        }
        if len > 0xffff_ffff || (len as u64) > 0xffff_ffff - total {
            proof {
                lemma_payload_len_grows(views, i + 1, n as int);
            }
            return false;
        }
        total = total + (len as u64);
        i = i + 1;
    }
    true
}

/// Serialises `frames` into one container.
///
/// The frames are packed exactly when the container can hold them and
/// every edge is 1 to 256; anything else is `IoError`.
pub fn pack_ico(frames: &Vec<IcoFrame>) -> (r: Result<Vec<u8>, IconError>)
    ensures
        r is Ok <==> ico_fits(frame_views(frames@)) && edges_storable(frame_views(frames@)),
        r is Ok ==> r->Ok_0@ == ico_file(frame_views(frames@)),
        r is Err ==> r->Err_0 == IconError::IoError,
{
    if !frames_fit(frames) {
        return Err(IconError::IoError);
    }
    match ico_container(frames) {
        Some(bytes) => Ok(bytes),
        None => Err(IconError::IoError),
    }
}

/// The frame of a square image: its edge, and the PNG stream of its pixels.
pub open spec fn frame_of(image: PixelImage) -> FrameView {
    (image.width, png_encoding(image.width, image.height, image.pixels@))
}

/// The frames that the catalog `m` gives the container: one per container
/// size, in file order.
pub open spec fn ico_frames_of(m: Map<u32, PixelImage>) -> Seq<FrameView> {
    Seq::new(ico_sizes().len(), |i: int| frame_of(m[ico_sizes()[i]]))
}

/// Encodes every image as a PNG stream and tags it with the image's width.
///
/// The only failure is an image without pixels, which the encoder refuses;
/// it is reported as `IoError`.
pub fn encode_frames(images: &Vec<&PixelImage>) -> (r: Result<Vec<IcoFrame>, IconError>)
    requires
        forall|i: int| 0 <= i < images@.len() ==> (#[trigger] images@[i]).wf(),
    ensures
        r is Ok <==> forall|i: int|
            0 <= i < images@.len() ==> (#[trigger] images@[i]).width > 0 && images@[i].height > 0,
        r is Err ==> r->Err_0 == IconError::IoError,
        r is Ok ==> frame_views(r->Ok_0@) == Seq::new(
            images@.len(),
            |i: int| frame_of(*images@[i]),
        ),
        r is Ok ==> forall|i: int|
            0 <= i < images@.len() ==> is_png_of(
                #[trigger] frame_of(*images@[i]).1,
                images@[i].width,
                images@[i].height,
            ),
{
    let mut frames: Vec<IcoFrame> = Vec::new();
    let mut i: usize = 0;
    while i < images.len()
        invariant
            0 <= i <= images@.len(),
            frames@.len() == i,
            forall|j: int| 0 <= j < images@.len() ==> (#[trigger] images@[j]).wf(),
            forall|j: int|
                0 <= j < i ==> (#[trigger] images@[j]).width > 0 && images@[j].height > 0,
            forall|j: int|
                0 <= j < i ==> (#[trigger] frames@[j]).edge == images@[j].width && frames@[j].png@
                    == frame_of(*images@[j]).1,
            forall|j: int|
                0 <= j < i ==> is_png_of(
                    #[trigger] frame_of(*images@[j]).1,
                    images@[j].width,
                    images@[j].height,
                ),
        decreases images@.len() - i,
    {
        let image: &PixelImage = images[i];
        match png_encode(image) {
            None => {
                return Err(IconError::IoError);
            },
            Some(png) => {
                frames.push(IcoFrame { edge: image.width, png });
            },
        }
        i = i + 1;
    }
    proof {
        assert(frame_views(frames@) =~= Seq::new(images@.len(), |i: int| frame_of(*images@[i])));
    }
    Ok(frames)
}

/// What packing the catalog `m` under `target_name` may end in.
///
/// A container size that the catalog lacks gives `MissingSize`, naming the
/// first such size in file order. With every size present a file is
/// returned exactly when the four streams fit the 32-bit offsets of the
/// directory, and `IoError` otherwise. The file bears the completed name and
/// holds the four frames, each the PNG stream of its catalog entry, and each
/// stream declares the frame's own dimensions.
pub open spec fn ico_outcome(
    m: Map<u32, PixelImage>,
    target_name: Seq<char>,
    r: Result<NamedFile, IconError>,
) -> bool {
    match first_missing(m, ico_sizes()) {
        Some(s) => r is Err && r->Err_0 == IconError::MissingSize(s),
        None => {
            &&& r is Ok <==> ico_fits(ico_frames_of(m))
            &&& match r {
                Ok(file) => {
                    &&& file.name@ == completed_name(target_name, ".ico"@)
                    &&& file.bytes@ == ico_file(ico_frames_of(m))
                    &&& forall|i: int|
                        0 <= i < ico_sizes().len() ==> is_png_of(
                            #[trigger] ico_frames_of(m)[i].1,
                            ico_sizes()[i],
                            ico_sizes()[i],
                        )
                },
                Err(e) => e == IconError::IoError,
            }
        },
    }
}

/// Packs the container sizes of `catalog` into one icon file named
/// `target_name`, with `.ico` appended where the name holds no dot.
///
/// A container size that the catalog lacks fails the packer with
/// `MissingSize`, naming the first such size in file order. With every size
/// present the only failure left is `IoError`, and a file that is returned
/// holds the four frames 256, 64, 32 and 16, each with the PNG stream of its
/// catalog entry.
pub fn fill_ico(catalog: &SizeCatalog, target_name: &str) -> (r: Result<NamedFile, IconError>)
    ensures
        ico_outcome(catalog@, target_name@, r),
{
    proof {
        use_type_invariant(catalog);
    }
    let images = match select_sizes(catalog, ICO_SIZES.as_slice()) {
        Ok(images) => images,
        Err(e) => {
            return Err(e);
        },
    };
    proof {
        assert(ICO_SIZES@ == ico_sizes());
        lemma_first_missing(catalog@, ico_sizes());
        assert forall|i: int| 0 <= i < images@.len() implies (#[trigger] images@[i]).is_square_of(
            ico_sizes()[i] as int,
        ) by {
            assert(catalog@.contains_key(ico_sizes()[i]));
        }
    }
    let frames = match encode_frames(&images) {
        Ok(frames) => frames,
        Err(e) => {
            return Err(e);
        },
    };
    proof {
        assert(frame_views(frames@) =~= ico_frames_of(catalog@));
        assert(edges_storable(ico_frames_of(catalog@)));
        assert forall|i: int| 0 <= i < ico_sizes().len() implies is_png_of(
            #[trigger] ico_frames_of(catalog@)[i].1,
            ico_sizes()[i],
            ico_sizes()[i],
        ) by {
            assert(is_png_of(frame_of(*images@[i]).1, images@[i].width, images@[i].height));
        }
    }
    match pack_ico(&frames) {
        Ok(bytes) => Ok(NamedFile { name: with_default_extension(target_name, ".ico"), bytes }),
        Err(e) => Err(e),
    }
}

} // verus!
