//! The whole build: decode, crop, resample, pack. And the preview.

use crate::catalog::{
    build_catalog, catalog_sizes, entries_match_keys, first_missing, is_catalog_of,
    lemma_first_missing, SizeCatalog,
};
use crate::codec::{
    base64_encode, base64_len, base64_text, decode_rgba, decoded, png_encode, png_encoding,
};
use crate::error::{Failure, IconError};
use crate::icns::{fill_icns, icns_blocks_of, icns_file, icns_outcome, icns_sizes, raw_elements};
use crate::ico::{fill_ico, ico_file, ico_fits, ico_frames_of, ico_outcome, ico_sizes};
use crate::named_png::{
    emitted_files, file_views, fill_pngs, lemma_png_file_names, png_file_names, png_file_of,
    png_outcome, png_table, png_targets,
    skipped_targets, FileView, PngBatch,
};
use crate::names::{completed_name, NamedFile};
use crate::pixel::{crop_edge, cropped_pixels, square_crop, PixelImage};
use vstd::prelude::*;

verus! {

/// Everything one build produces. The three packers are independent: each
/// one's failure is its own.
#[derive(Debug)]
pub struct IconSet {
    pub icns: Result<NamedFile, IconError>,
    pub ico: Result<NamedFile, IconError>,
    pub pngs: Result<PngBatch, IconError>,
}

/// The file of a packer that succeeded; nothing for one that failed.
pub open spec fn packed_file(r: Result<NamedFile, IconError>) -> Seq<FileView> {
    match r {
        Ok(file) => seq![(file.name@, file.bytes@)],
        Err(_) => Seq::empty(),
    }
}

/// The files of a batch that succeeded; nothing for one that failed.
pub open spec fn batch_files(r: Result<PngBatch, IconError>) -> Seq<FileView> {
    match r {
        Ok(batch) => file_views(batch.files@),
        Err(_) => Seq::empty(),
    }
}

/// Every file that `set` holds: the Apple container, the Windows container,
/// then the named PNG files.
pub open spec fn set_files(set: IconSet) -> Seq<FileView> {
    packed_file(set.icns) + packed_file(set.ico) + batch_files(set.pngs)
}

/// The failure of the first packer that failed, in the order Apple
/// container, Windows container, named PNG files.
pub open spec fn first_failure_of(set: IconSet) -> Option<IconError> {
    if set.icns is Err {
        Some(set.icns->Err_0)
    } else if set.ico is Err {
        Some(set.ico->Err_0)
    } else if set.pngs is Err {
        Some(set.pngs->Err_0)
    } else {
        None
    }
}

impl IconSet {
    /// The failure to report for the build, if any packer failed.
    pub fn first_failure(&self) -> (r: Option<IconError>)
        ensures
            r == first_failure_of(*self),
    {
        match &self.icns {
            Err(e) => {
                return Some(*e);
            },
            Ok(_) => {},
        }
        match &self.ico {
            Err(e) => {
                return Some(*e);
            },
            Ok(_) => {},
        }
        match &self.pngs {
            Err(e) => Some(*e),
            Ok(_) => None,
        }
    }

    /// The files to write, in writing order. A packer that failed
    /// contributes none.
    pub fn into_files(self) -> (r: Vec<NamedFile>)
        ensures
            file_views(r@) == set_files(self),
    {
        let mut files: Vec<NamedFile> = Vec::new();
        match self.icns {
            Ok(file) => {
                files.push(file);
            },
            Err(_) => {},
        }
        match self.ico {
            Ok(file) => {
                files.push(file);
            },
            Err(_) => {},
        }
        match self.pngs {
            Ok(batch) => {
                let mut rest = batch.files;
                files.append(&mut rest);
            },
            Err(_) => {},
        }
        proof {
            assert(file_views(files@) =~= set_files(self));
        }
        files
    }
}

/// `set` is what the three packers may make of the catalog `m`: the Apple
/// container as `icon.icns`, the Windows container as `icon.ico`, and the
/// named PNG files of the branding table.
pub open spec fn set_outcome(m: Map<u32, PixelImage>, set: IconSet) -> bool {
    &&& icns_outcome(m, "icon.icns"@, set.icns)
    &&& ico_outcome(m, "icon.ico"@, set.ico)
    &&& png_outcome(m, png_table(), set.pngs)
}

/// What a build from a decoded image of the given dimensions and bytes
/// ends in: `InvalidImage` exactly when the image has no pixels; else the
/// packers' outputs for some catalog of the image's centred square.
pub open spec fn built_from(
    width: u32,
    height: u32,
    pixels: Seq<u8>,
    r: Result<IconSet, IconError>,
) -> bool {
    &&& (width == 0 || height == 0) <==> r is Err
    &&& r is Err ==> r->Err_0 == IconError::InvalidImage
    &&& r is Ok ==> exists|m: Map<u32, PixelImage>|
        is_catalog_of(
            m,
            crop_edge(width as int, height as int) as u32,
            cropped_pixels(width as int, height as int, pixels),
        ) && #[trigger] set_outcome(m, r->Ok_0)
}

/// The kind of failure of a build, or its icon set.
pub open spec fn kind_of(r: Result<IconSet, Failure>) -> Result<IconSet, IconError> {
    match r {
        Ok(set) => Ok(set),
        Err(failure) => Err(failure.error),
    }
}

/// What a build from the file at `path` ends in, given what was read there.
///
/// Nothing there is `NotFound`. Bytes that the decoder refuses are
/// `DecodeError`, with the decoder's description as the cause. Bytes that
/// decode give what `built_from` says of the decoded image.
pub open spec fn build_outcome(
    path: Seq<char>,
    source: Option<Seq<u8>>,
    r: Result<IconSet, Failure>,
) -> bool {
    match source {
        None => r is Err && r->Err_0.error == IconError::NotFound && r->Err_0.cause@.len() == 0,
        Some(bytes) => match decoded(path, bytes) {
            Err(cause) => r is Err && r->Err_0.error == IconError::DecodeError && r->Err_0.cause@
                == cause,
            Ok(image) => built_from(image.0, image.1, image.2, kind_of(r)) && (r is Err
                ==> r->Err_0.cause@.len() == 0),
        },
    }
}

/// The preview of a decoded image of the given dimensions and bytes: the
/// base64 text of its PNG stream. An image without pixels has none, nor one
/// whose text would be longer than a machine word can count; both are
/// `IoError`.
pub open spec fn preview_text(width: u32, height: u32, pixels: Seq<u8>) -> Result<
    Seq<char>,
    IconError,
> {
    if width > 0 && height > 0 && base64_len(png_encoding(width, height, pixels).len() as int)
        <= usize::MAX {
        Ok(base64_text(png_encoding(width, height, pixels)))
    } else {
        Err(IconError::IoError)
    }
}

/// What a preview of the file at `path` ends in, given what was read there.
pub open spec fn preview_outcome(
    path: Seq<char>,
    source: Option<Seq<u8>>,
    r: Result<String, Failure>,
) -> bool {
    match source {
        None => r is Err && r->Err_0.error == IconError::NotFound && r->Err_0.cause@.len() == 0,
        Some(bytes) => match decoded(path, bytes) {
            Err(cause) => r is Err && r->Err_0.error == IconError::DecodeError && r->Err_0.cause@
                == cause,
            Ok(image) => match preview_text(image.0, image.1, image.2) {
                Ok(text) => r is Ok && r->Ok_0@ == text,
                Err(e) => r is Err && r->Err_0.error == e && r->Err_0.cause@.len() == 0,
            },
        },
    }
}

/// A catalog that holds every catalog size serves every packer: neither
/// container misses a size, and the branding table yields all fourteen PNG
/// files, none skipped, each the file of its own table entry.
pub proof fn lemma_full_catalog_serves_all(m: Map<u32, PixelImage>)
    requires
        m.dom() == catalog_sizes().to_set(),
    ensures
        first_missing(m, icns_sizes()) is None,
        first_missing(m, ico_sizes()) is None,
        skipped_targets(m, png_table(), 14) == Seq::<usize>::empty(),
        emitted_files(m, png_table(), 14) == Seq::new(14, |i: int| png_file_of(m, png_table()[i])),
{
    assert forall|s: u32| catalog_sizes().contains(s) implies m.contains_key(s) by {
        assert(catalog_sizes().to_set().contains(s));
    }
    assert forall|i: int| 0 <= i < icns_sizes().len() implies m.contains_key(
        #[trigger] icns_sizes()[i],
    ) by {
        let s = icns_sizes()[i];
        assert(catalog_sizes()[0] == 512 && catalog_sizes()[1] == 256 && catalog_sizes()[2] == 128
            && catalog_sizes()[6] == 32 && catalog_sizes()[8] == 16);
        assert(catalog_sizes().contains(s));
    }
    assert forall|i: int| 0 <= i < ico_sizes().len() implies m.contains_key(
        #[trigger] ico_sizes()[i],
    ) by {
        let s = ico_sizes()[i];
        assert(catalog_sizes()[1] == 256 && catalog_sizes()[4] == 64 && catalog_sizes()[6] == 32
            && catalog_sizes()[8] == 16);
        assert(catalog_sizes().contains(s));
    }
    lemma_first_missing(m, icns_sizes());
    lemma_first_missing(m, ico_sizes());
    assert forall|i: int| 0 <= i < 14 implies m.contains_key((#[trigger] png_table()[i]).0) by {
        let s = png_table()[i].0;
        assert(catalog_sizes()[0] == 512 && catalog_sizes()[1] == 256 && catalog_sizes()[2] == 128
            && catalog_sizes()[6] == 32 && catalog_sizes()[9] == 310 && catalog_sizes()[10] == 284
            && catalog_sizes()[11] == 150 && catalog_sizes()[12] == 142 && catalog_sizes()[13]
            == 107 && catalog_sizes()[14] == 89 && catalog_sizes()[15] == 71 && catalog_sizes()[16]
            == 44 && catalog_sizes()[17] == 30 && catalog_sizes()[18] == 50);
        assert(catalog_sizes().contains(s));
    }
    lemma_all_found(m, png_table(), 14);
}

/// Where the catalog holds the edge of every one of the first `upto`
/// targets, none is skipped and each one's file is emitted, in order.
pub proof fn lemma_all_found(m: Map<u32, PixelImage>, targets: Seq<(u32, Seq<char>)>, upto: int)
    requires
        0 <= upto <= targets.len(),
        forall|i: int| 0 <= i < upto ==> m.contains_key((#[trigger] targets[i]).0),
    ensures
        skipped_targets(m, targets, upto) == Seq::<usize>::empty(),
        emitted_files(m, targets, upto) == Seq::new(
            upto as nat,
            |i: int| png_file_of(m, targets[i]),
        ),
    decreases upto,
{
    if upto > 0 {
        lemma_all_found(m, targets, upto - 1);
        assert(m.contains_key(targets[upto - 1].0));
        assert(emitted_files(m, targets, upto) =~= Seq::new(
            upto as nat,
            |i: int| png_file_of(m, targets[i]),
        ));
    } else {
        assert(emitted_files(m, targets, upto) =~= Seq::new(
            upto as nat,
            |i: int| png_file_of(m, targets[i]),
        ));
    }
}

/// The packers' outputs for a catalog that holds every catalog size are the
/// whole icon set. The Apple container is always there, named `icon.icns`.
/// All fourteen PNG files are there, under their names, none skipped. The
/// Windows container, named `icon.ico`, is there exactly when its four
/// streams fit the 32-bit offsets of its directory, and nothing else can
/// have failed.
pub proof fn lemma_full_catalog_outcome(m: Map<u32, PixelImage>, set: IconSet)
    requires
        entries_match_keys(m),
        m.dom() == catalog_sizes().to_set(),
        set_outcome(m, set),
    ensures
        set.icns is Ok,
        set.icns->Ok_0.name@ == "icon.icns"@,
        set.icns->Ok_0.bytes@ == icns_file(raw_elements(icns_blocks_of(m))),
        set.ico is Ok <==> ico_fits(ico_frames_of(m)),
        set.ico is Ok ==> set.ico->Ok_0.name@ == "icon.ico"@ && set.ico->Ok_0.bytes@ == ico_file(
            ico_frames_of(m),
        ),
        set.ico is Err ==> set.ico->Err_0 == IconError::IoError,
        set.pngs is Ok,
        set.pngs->Ok_0.skipped@.len() == 0,
        set.pngs->Ok_0.files@.len() == 14,
        forall|i: int|
            0 <= i < 14 ==> (#[trigger] set.pngs->Ok_0.files@[i]).name@ == png_file_names()[i]
                && set.pngs->Ok_0.files@[i].bytes@ == png_file_of(m, png_table()[i]).1,
        first_failure_of(set) is None <==> ico_fits(ico_frames_of(m)),
{
    lemma_full_catalog_serves_all(m);
    lemma_png_file_names();
    assert(completed_name("icon.icns"@, ".icns"@) == "icon.icns"@) by {
        reveal_strlit("icon.icns");
        assert("icon.icns"@[4] == '.');
    }
    assert(completed_name("icon.ico"@, ".ico"@) == "icon.ico"@) by {
        reveal_strlit("icon.ico");
        assert("icon.ico"@[4] == '.');
    }
    let files = set.pngs->Ok_0.files@;
    assert(file_views(files).len() == 14);
    assert forall|i: int| 0 <= i < 14 implies (#[trigger] files[i]).name@ == png_file_names()[i]
        && files[i].bytes@ == png_file_of(m, png_table()[i]).1 by {
        assert(file_views(files)[i] == png_file_of(m, png_table()[i]));
    }
}

/// Packing is repeatable: two runs of the packers on the same catalog that
/// both produce a file produce the same file, byte for byte and name for
/// name.
pub proof fn lemma_packing_is_repeatable(m: Map<u32, PixelImage>, a: IconSet, b: IconSet)
    requires
        set_outcome(m, a),
        set_outcome(m, b),
    ensures
        a.ico is Ok && b.ico is Ok ==> a.ico->Ok_0.bytes@ == b.ico->Ok_0.bytes@ && a.ico->Ok_0.name@
            == b.ico->Ok_0.name@,
        a.icns is Ok && b.icns is Ok ==> a.icns->Ok_0.bytes@ == b.icns->Ok_0.bytes@
            && a.icns->Ok_0.name@ == b.icns->Ok_0.name@,
        a.pngs is Ok && b.pngs is Ok ==> file_views(a.pngs->Ok_0.files@) == file_views(
            b.pngs->Ok_0.files@,
        ) && a.pngs->Ok_0.skipped@ == b.pngs->Ok_0.skipped@,
{
}

/// Runs the three packers on `catalog`. Every packer runs, whatever became
/// of the others.
pub fn pack_all(catalog: &SizeCatalog) -> (r: IconSet)
    ensures
        set_outcome(catalog@, r),
{
    proof {
        use_type_invariant(catalog);
    }
    let icns = fill_icns(catalog, "icon.icns");
    let ico = fill_ico(catalog, "icon.ico");
    let targets = png_targets();
    let pngs = fill_pngs(catalog, &targets);
    IconSet { icns, ico, pngs }
}

/// Builds the icon set of a decoded image: crops the centred square,
/// resamples it to every catalog size and runs the packers.
pub fn build_from_image(image: &PixelImage) -> (r: Result<IconSet, IconError>)
    requires
        image.wf(),
    ensures
        built_from(image.width, image.height, image.pixels@, r),
{
    let square = match square_crop(image) {
        Ok(square) => square,
        Err(e) => {
            return Err(e);
        },
    };
    let catalog = build_catalog(&square);
    let r = Ok(pack_all(&catalog));
    proof {
        assert(is_catalog_of(
            catalog@,
            crop_edge(image.width as int, image.height as int) as u32,
            cropped_pixels(image.width as int, image.height as int, image.pixels@),
        ) && set_outcome(catalog@, r->Ok_0));
    }
    r
}

/// The bytes of a source that was read, as a sequence.
pub open spec fn source_bytes(source: Option<&[u8]>) -> Option<Seq<u8>> {
    match source {
        Some(bytes) => Some(bytes@),
        None => None,
    }
}

/// Builds the icon set of the source image at `image_path`, given the bytes
/// that were read there, or `None` where nothing exists there.
///
/// The path serves only to tell the format, by its extension. A missing
/// source, bytes that do not decode and an image without pixels produce
/// nothing.
pub fn build_icons_sync(image_path: &str, source: Option<&[u8]>) -> (r: Result<IconSet, Failure>)
    ensures
        build_outcome(image_path@, source_bytes(source), r),
{
    let bytes = match source {
        Some(bytes) => bytes,
        None => {
            return Err(Failure::of(IconError::NotFound));
        },
    };
    match decode_rgba(image_path, bytes) {
        Ok(image) => match build_from_image(&image) {
            Ok(set) => Ok(set),
            Err(e) => Err(Failure::of(e)),
        },
        Err(cause) => Err(Failure { error: IconError::DecodeError, cause }),
    }
}

/// The preview of a decoded image: its PNG stream as base64 text.
pub fn preview_of(image: &PixelImage) -> (r: Result<String, IconError>)
    requires
        image.wf(),
    ensures
        match preview_text(image.width, image.height, image.pixels@) {
            Ok(text) => r is Ok && r->Ok_0@ == text,
            Err(e) => r is Err && r->Err_0 == e,
        },
{
    let png = match png_encode(image) {
        Some(png) => png,
        None => {
            return Err(IconError::IoError);
        },
    };
    let n: usize = png.len();
    let groups: usize = n / 3;
    if groups > usize::MAX / 4 {
        return Err(IconError::IoError);
    }
    if n % 3 != 0 && groups * 4 > usize::MAX - 4 {
        return Err(IconError::IoError);
    }
    Ok(base64_encode(&png))
}

/// The preview of the source image at `image_path`, given the bytes that
/// were read there, or `None` where nothing exists there.
pub fn get_web_img_png_base64(image_path: &str, source: Option<&[u8]>) -> (r: Result<
    String,
    Failure,
>)
    ensures
        preview_outcome(image_path@, source_bytes(source), r),
{
    let bytes = match source {
        Some(bytes) => bytes,
        None => {
            return Err(Failure::of(IconError::NotFound));
        },
    };
    match decode_rgba(image_path, bytes) {
        Ok(image) => match preview_of(&image) {
            Ok(text) => Ok(text),
            Err(e) => Err(Failure::of(e)),
        },
        Err(cause) => Err(Failure { error: IconError::DecodeError, cause }),
    }
}

} // verus!
