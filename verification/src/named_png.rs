//! The named PNG files: one standalone PNG per branding size.

use crate::catalog::SizeCatalog;
use crate::codec::{is_png_of, png_encode, png_encoding};
use crate::error::IconError;
use crate::names::{completed_name, with_default_extension, NamedFile};
use crate::pixel::PixelImage;
use vstd::prelude::*;
use vstd::string::*;

verus! {

/// One file to emit: the edge length to look up and the name to give it.
#[derive(Debug)]
pub struct PngTarget {
    pub edge: u32,
    pub name: String,
}

/// A target as a pair of its edge and its name.
pub type TargetView = (u32, Seq<char>);

/// A file as a pair of its name and its bytes.
pub type FileView = (Seq<char>, Seq<u8>);

/// What a batch produced: the files of the targets that were found, and the
/// positions of the targets that were skipped because the catalog has no
/// entry for their edge.
#[derive(Debug)]
pub struct PngBatch {
    pub files: Vec<NamedFile>,
    pub skipped: Vec<usize>,
}

/// The targets of `targets` as pairs of edge and name.
pub open spec fn target_views(targets: Seq<PngTarget>) -> Seq<TargetView> {
    Seq::new(targets.len(), |i: int| (targets[i].edge, targets[i].name@))
}

/// The files of `files` as pairs of name and bytes.
pub open spec fn file_views(files: Seq<NamedFile>) -> Seq<FileView> {
    Seq::new(files.len(), |i: int| (files[i].name@, files[i].bytes@))
}

/// The file of one target: its name, completed with `.png`, and the PNG
/// stream of the catalog entry for its edge.
pub open spec fn png_file_of(m: Map<u32, PixelImage>, target: TargetView) -> FileView {
    (
        completed_name(target.1, ".png"@),
        png_encoding(target.0, target.0, m[target.0].pixels@),
    )
}

/// The files of the first `upto` targets, leaving out the targets whose
/// edge the catalog lacks.
pub open spec fn emitted_files(m: Map<u32, PixelImage>, targets: Seq<TargetView>, upto: int) -> Seq<
    FileView,
>
    decreases upto,
{
    if upto <= 0 {
        Seq::empty()
    } else if m.contains_key(targets[upto - 1].0) {
        emitted_files(m, targets, upto - 1).push(png_file_of(m, targets[upto - 1]))
    } else {
        emitted_files(m, targets, upto - 1)
    }
}

/// The positions, among the first `upto` targets, of those whose edge the
/// catalog lacks.
pub open spec fn skipped_targets(m: Map<u32, PixelImage>, targets: Seq<TargetView>, upto: int) -> Seq<
    usize,
>
    decreases upto,
{
    if upto <= 0 {
        Seq::empty()
    } else if m.contains_key(targets[upto - 1].0) {
        skipped_targets(m, targets, upto - 1)
    } else {
        skipped_targets(m, targets, upto - 1).push((upto - 1) as usize)
    }
}

/// What emitting `targets` from the catalog `m` ends in.
///
/// A batch is always returned. It holds one file per target that was found,
/// in target order, and the positions of the others; every file's stream
/// declares the dimensions of its target.
pub open spec fn png_outcome(
    m: Map<u32, PixelImage>,
    targets: Seq<TargetView>,
    r: Result<PngBatch, IconError>,
) -> bool {
    &&& r is Ok
    &&& file_views(r->Ok_0.files@) == emitted_files(m, targets, targets.len() as int)
    &&& r->Ok_0.skipped@ == skipped_targets(m, targets, targets.len() as int)
    &&& forall|i: int|
        0 <= i < targets.len() && m.contains_key(targets[i].0) ==> is_png_of(
            #[trigger] png_file_of(m, targets[i]).1,
            targets[i].0,
            targets[i].0,
        )
}

/// Emits one PNG file per target whose edge the catalog holds.
///
/// A target without a catalog entry is skipped and reported, never an
/// error. Every entry of a catalog is a square with pixels, which the
/// encoder never refuses, so the batch is always returned.
pub fn fill_pngs(catalog: &SizeCatalog, targets: &Vec<PngTarget>) -> (r: Result<
    PngBatch,
    IconError,
>)
    ensures
        png_outcome(catalog@, target_views(targets@), r),
{
    proof {
        use_type_invariant(catalog);
    }
    let ghost views = target_views(targets@);
    let mut files: Vec<NamedFile> = Vec::new();
    let mut skipped: Vec<usize> = Vec::new();
    let mut i: usize = 0;
    while i < targets.len()
        invariant
            0 <= i <= targets@.len(),
            catalog.wf(),
            views == target_views(targets@),
            file_views(files@) == emitted_files(catalog@, views, i as int),
            skipped@ == skipped_targets(catalog@, views, i as int),
            forall|j: int|
                0 <= j < i && catalog@.contains_key(targets@[j].edge) ==> is_png_of(
                    #[trigger] png_file_of(catalog@, views[j]).1,
                    targets@[j].edge,
                    targets@[j].edge,
                ),
        decreases targets@.len() - i,
    {
        let target: &PngTarget = &targets[i];
        proof {
            assert(views[i as int] == (target.edge, target.name@));
        }
        match catalog.get(target.edge) {
            None => {
                skipped.push(i);
            },
            Some(image) => {
                proof {
                    assert(catalog@.contains_key(target.edge));
                    assert(image.is_square_of(target.edge as int));
                }
                let bytes = match png_encode(image) {
                    Some(bytes) => bytes,
                    None => {
                        return Err(IconError::IoError);
                    },
                };
                let name = with_default_extension(target.name.as_str(), ".png");
                let ghost before = file_views(files@);
                files.push(NamedFile { name, bytes });
                proof {
                    assert(file_views(files@) =~= before.push(png_file_of(catalog@, views[i as int])));
                }
            },
        }
        i = i + 1;
    }
    Ok(PngBatch { files, skipped })
}

/// The branding sizes and the name of each one's file.
pub open spec fn png_table() -> Seq<TargetView> {
    seq![
        (32u32, "32x32"@),
        (128u32, "128x128"@),
        (256u32, "128x128@2x"@),
        (30u32, "Square30x30Logo"@),
        (44u32, "Square44x44Logo"@),
        (71u32, "Square71x71Logo"@),
        (89u32, "Square89x89Logo"@),
        (107u32, "Square107x107Logo"@),
        (142u32, "Square142x142Logo"@),
        (150u32, "Square150x150Logo"@),
        (284u32, "Square284x284Logo"@),
        (310u32, "Square310x310Logo"@),
        (512u32, "icon.png"@),
        (50u32, "StoreLogo"@),
    ]
}

/// The names of the emitted files, in table order.
pub open spec fn png_file_names() -> Seq<Seq<char>> {
    seq![
        "32x32.png"@,
        "128x128.png"@,
        "128x128@2x.png"@,
        "Square30x30Logo.png"@,
        "Square44x44Logo.png"@,
        "Square71x71Logo.png"@,
        "Square89x89Logo.png"@,
        "Square107x107Logo.png"@,
        "Square142x142Logo.png"@,
        "Square150x150Logo.png"@,
        "Square284x284Logo.png"@,
        "Square310x310Logo.png"@,
        "icon.png"@,
        "StoreLogo.png"@,
    ]
}

/// The fixed table of branding sizes, in emission order.
pub fn png_targets() -> (r: Vec<PngTarget>)
    ensures
        target_views(r@) == png_table(),
{
    let mut targets: Vec<PngTarget> = Vec::new();
    targets.push(PngTarget { edge: 32, name: String::from_str("32x32") });
    targets.push(PngTarget { edge: 128, name: String::from_str("128x128") });
    targets.push(PngTarget { edge: 256, name: String::from_str("128x128@2x") });
    targets.push(PngTarget { edge: 30, name: String::from_str("Square30x30Logo") });
    targets.push(PngTarget { edge: 44, name: String::from_str("Square44x44Logo") });
    targets.push(PngTarget { edge: 71, name: String::from_str("Square71x71Logo") });
    targets.push(PngTarget { edge: 89, name: String::from_str("Square89x89Logo") });
    targets.push(PngTarget { edge: 107, name: String::from_str("Square107x107Logo") });
    targets.push(PngTarget { edge: 142, name: String::from_str("Square142x142Logo") });
    targets.push(PngTarget { edge: 150, name: String::from_str("Square150x150Logo") });
    targets.push(PngTarget { edge: 284, name: String::from_str("Square284x284Logo") });
    targets.push(PngTarget { edge: 310, name: String::from_str("Square310x310Logo") });
    targets.push(PngTarget { edge: 512, name: String::from_str("icon.png") });
    targets.push(PngTarget { edge: 50, name: String::from_str("StoreLogo") });
    proof {
        assert(target_views(targets@) =~= png_table());
    }
    targets
}

/// Every name of the table gets `.png` appended, except `icon.png`, which
/// holds a dot and stays as it is.
pub proof fn lemma_png_file_names()
    ensures
        png_table().len() == 14,
        png_file_names().len() == 14,
        forall|i: int|
            0 <= i < 14 ==> completed_name(#[trigger] png_table()[i].1, ".png"@)
                == png_file_names()[i],
{
    assert(completed_name(png_table()[0].1, ".png"@) == png_file_names()[0]) by {
        reveal_strlit("32x32");
        reveal_strlit(".png");
        reveal_strlit("32x32.png");
        assert(!"32x32"@.contains('.'));
        assert("32x32"@ + ".png"@ =~= "32x32.png"@);
    }
    assert(completed_name(png_table()[1].1, ".png"@) == png_file_names()[1]) by {
        reveal_strlit("128x128");
        reveal_strlit(".png");
        reveal_strlit("128x128.png");
        assert(!"128x128"@.contains('.'));
        assert("128x128"@ + ".png"@ =~= "128x128.png"@);
    }
    assert(completed_name(png_table()[2].1, ".png"@) == png_file_names()[2]) by {
        reveal_strlit("128x128@2x");
        reveal_strlit(".png");
        reveal_strlit("128x128@2x.png");
        assert(!"128x128@2x"@.contains('.'));
        assert("128x128@2x"@ + ".png"@ =~= "128x128@2x.png"@);
    }
    assert(completed_name(png_table()[3].1, ".png"@) == png_file_names()[3]) by {
        reveal_strlit("Square30x30Logo");
        reveal_strlit(".png");
        reveal_strlit("Square30x30Logo.png");
        assert(!"Square30x30Logo"@.contains('.'));
        assert("Square30x30Logo"@ + ".png"@ =~= "Square30x30Logo.png"@);
    }
    assert(completed_name(png_table()[4].1, ".png"@) == png_file_names()[4]) by {
        reveal_strlit("Square44x44Logo");
        reveal_strlit(".png");
        reveal_strlit("Square44x44Logo.png");
        assert(!"Square44x44Logo"@.contains('.'));
        assert("Square44x44Logo"@ + ".png"@ =~= "Square44x44Logo.png"@);
    }
    assert(completed_name(png_table()[5].1, ".png"@) == png_file_names()[5]) by {
        reveal_strlit("Square71x71Logo");
        reveal_strlit(".png");
        reveal_strlit("Square71x71Logo.png");
        assert(!"Square71x71Logo"@.contains('.'));
        assert("Square71x71Logo"@ + ".png"@ =~= "Square71x71Logo.png"@);
    }
    assert(completed_name(png_table()[6].1, ".png"@) == png_file_names()[6]) by {
        reveal_strlit("Square89x89Logo");
        reveal_strlit(".png");
        reveal_strlit("Square89x89Logo.png");
        assert(!"Square89x89Logo"@.contains('.'));
        assert("Square89x89Logo"@ + ".png"@ =~= "Square89x89Logo.png"@);
    }
    assert(completed_name(png_table()[7].1, ".png"@) == png_file_names()[7]) by {
        reveal_strlit("Square107x107Logo");
        reveal_strlit(".png");
        reveal_strlit("Square107x107Logo.png");
        assert(!"Square107x107Logo"@.contains('.'));
        assert("Square107x107Logo"@ + ".png"@ =~= "Square107x107Logo.png"@);
    }
    assert(completed_name(png_table()[8].1, ".png"@) == png_file_names()[8]) by {
        reveal_strlit("Square142x142Logo");
        reveal_strlit(".png");
        reveal_strlit("Square142x142Logo.png");
        assert(!"Square142x142Logo"@.contains('.'));
        assert("Square142x142Logo"@ + ".png"@ =~= "Square142x142Logo.png"@);
    }
    assert(completed_name(png_table()[9].1, ".png"@) == png_file_names()[9]) by {
        reveal_strlit("Square150x150Logo");
        reveal_strlit(".png");
        reveal_strlit("Square150x150Logo.png");
        assert(!"Square150x150Logo"@.contains('.'));
        assert("Square150x150Logo"@ + ".png"@ =~= "Square150x150Logo.png"@);
    }
    assert(completed_name(png_table()[10].1, ".png"@) == png_file_names()[10]) by {
        reveal_strlit("Square284x284Logo");
        reveal_strlit(".png");
        reveal_strlit("Square284x284Logo.png");
        assert(!"Square284x284Logo"@.contains('.'));
        assert("Square284x284Logo"@ + ".png"@ =~= "Square284x284Logo.png"@);
    }
    assert(completed_name(png_table()[11].1, ".png"@) == png_file_names()[11]) by {
        reveal_strlit("Square310x310Logo");
        reveal_strlit(".png");
        reveal_strlit("Square310x310Logo.png");
        assert(!"Square310x310Logo"@.contains('.'));
        assert("Square310x310Logo"@ + ".png"@ =~= "Square310x310Logo.png"@);
    }
    assert(completed_name(png_table()[12].1, ".png"@) == png_file_names()[12]) by {
        reveal_strlit("icon.png");
        assert("icon.png"@[4] == '.');
    }
    assert(completed_name(png_table()[13].1, ".png"@) == png_file_names()[13]) by {
        reveal_strlit("StoreLogo");
        reveal_strlit(".png");
        reveal_strlit("StoreLogo.png");
        assert(!"StoreLogo"@.contains('.'));
        assert("StoreLogo"@ + ".png"@ =~= "StoreLogo.png"@);
    }
}

} // verus!
