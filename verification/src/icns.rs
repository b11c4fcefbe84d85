//! The Apple icon container: five raw RGBA blocks, each stored as one
//! tagged element of an `icns` family.

use crate::catalog::{
    entries_match_keys, first_missing, lemma_first_missing, select_sizes, SizeCatalog,
};
use crate::codec::{be32, lemma_be32_round_trip, read_be32};
use crate::error::IconError;
use crate::names::{completed_name, with_default_extension, NamedFile};
use crate::pixel::{PixelImage, CHANNELS};
use vstd::prelude::*;

verus! {

/// The edge lengths stored in the container, in file order.
pub const ICNS_SIZES: [u32; 5] = [512, 256, 128, 32, 16];

/// The container's edge lengths as a sequence.
pub open spec fn icns_sizes() -> Seq<u32> {
    seq![512u32, 256u32, 128u32, 32u32, 16u32]
}

/// One icon handed to the container: its edge length and its pixels as raw
/// RGBA8 bytes, row-major, exactly `edge * edge * 4` of them.
#[derive(Debug)]
pub struct IconBlock {
    pub edge: u32,
    pub rgba: Vec<u8>,
}

impl IconBlock {
    /// The block holds exactly `edge * edge` pixels.
    pub open spec fn wf(&self) -> bool {
        self.rgba@.len() == self.edge * self.edge * 4
    }

    /// Whether the block holds exactly `edge * edge` pixels.
    pub fn holds_all_pixels(&self) -> (r: bool)
        ensures
            r == self.wf(),
    {
        let len: usize = self.rgba.len();
        if len % CHANNELS != 0 {
            return false;
        }
        let e: u64 = self.edge as u64;
        proof {
            assert(e * e <= 0xffff_ffff * 0xffff_ffff) by (nonlinear_arith)
                requires
                    0 <= e <= 0xffff_ffff,
            ;
        }
        (len / CHANNELS) as u64 == e * e
    }
}

/// An element of the container: its type code, read as a big-endian number,
/// and its payload.
pub type Element = (u32, Seq<u8>);

#[verifier::external_type_specification]
#[verifier::external_body]
pub struct ExIconFamily(icns::IconFamily);

/// The elements that a family holds, in file order.
pub uninterp spec fn family_elements(family: icns::IconFamily) -> Seq<Element>;

/// The type code that the format registers for a square icon of the given
/// edge, read as a big-endian number: `is32`, `il32`, `ih32`, `icp6`,
/// `it32`, `ic08`, `ic09`, `ic10`. No other edge has one.
pub open spec fn icon_code(edge: u32) -> Option<u32> {
    if edge == 16 {
        Some(0x6973_3332u32)
    } else if edge == 32 {
        Some(0x696c_3332u32)
    } else if edge == 48 {
        Some(0x6968_3332u32)
    } else if edge == 64 {
        Some(0x6963_7036u32)
    } else if edge == 128 {
        Some(0x6974_3332u32)
    } else if edge == 256 {
        Some(0x6963_3038u32)
    } else if edge == 512 {
        Some(0x6963_3039u32)
    } else if edge == 1024 {
        Some(0x6963_3130u32)
    } else {
        None
    }
}

/// Total length of the first `upto` elements, each with its eight-byte
/// header.
pub open spec fn elements_len(elements: Seq<Element>, upto: int) -> int
    decreases upto,
{
    if upto <= 0 {
        0
    } else {
        elements_len(elements, upto - 1) + 8 + elements[upto - 1].1.len()
    }
}

/// The first `upto` elements as they stand in the file: type code, length
/// of the element with its header, payload.
pub open spec fn elements_bytes(elements: Seq<Element>, upto: int) -> Seq<u8>
    decreases upto,
{
    if upto <= 0 {
        Seq::empty()
    } else {
        elements_bytes(elements, upto - 1) + be32(elements[upto - 1].0) + be32(
            (8 + elements[upto - 1].1.len()) as u32,
        ) + elements[upto - 1].1
    }
}

/// The whole file: the magic `icns`, the length of the file, the elements.
pub open spec fn icns_file(elements: Seq<Element>) -> Seq<u8> {
    seq![0x69u8, 0x63u8, 0x6eu8, 0x73u8] + be32(
        (8 + elements_len(elements, elements.len() as int)) as u32,
    ) + elements_bytes(elements, elements.len() as int)
}

/// The file's length fits the 32 bits of its length field.
pub open spec fn icns_fits(elements: Seq<Element>) -> bool {
    8 + elements_len(elements, elements.len() as int) <= 0xffff_ffff
}

/// Calls `icns::IconFamily::new`: a family without elements.
#[verifier::external_body]
pub(crate) fn family_new() -> (r: icns::IconFamily)
    ensures
        family_elements(r) == Seq::<Element>::empty(),
{
    icns::IconFamily::new()
}

/// Calls `icns::IconType::from_pixel_size` and `IconType::ostype` for the
/// type code of the block's edge, then `icns::IconElement::new`, and appends
/// the element to the family's public list.
///
/// An edge without a registered type code is refused and leaves the family
/// as it was. Otherwise one element is appended: the type code of the edge,
/// with the block's bytes as its payload, unchanged.
#[verifier::external_body]
pub(crate) fn family_push(family: &mut icns::IconFamily, block: &IconBlock) -> (added: bool)
    ensures
        added == (icon_code(block.edge) is Some),
        family_elements(*final(family)) == if added {
            family_elements(*old(family)).push((icon_code(block.edge)->0, block.rgba@))
        } else {
            family_elements(*old(family))
        },
{
    match icns::IconType::from_pixel_size(block.edge, block.edge) {
        Some(icon_type) => {
            family.elements.push(icns::IconElement::new(icon_type.ostype(), block.rgba.clone()));
            true
        },
        None => false,
    }
}

/// Calls `icns::IconFamily::write` on an in-memory writer, which cannot
/// fail.
///
/// The file is laid out as `icns_file` says. The encoder adds the lengths up
/// in 32 bits, hence the precondition.
#[verifier::external_body]
pub(crate) fn family_write(family: &icns::IconFamily) -> (r: Vec<u8>)
    requires
        icns_fits(family_elements(*family)),
    ensures
        r@ == icns_file(family_elements(*family)),
{
    let mut out: Vec<u8> = Vec::new();
    family.write(&mut out).unwrap();
    out
}

/// A block as a pair of its edge and its bytes.
pub type BlockView = (u32, Seq<u8>);

/// The blocks of `blocks` as pairs of edge and bytes.
pub open spec fn block_views(blocks: Seq<IconBlock>) -> Seq<BlockView> {
    Seq::new(blocks.len(), |i: int| (blocks[i].edge, blocks[i].rgba@))
}

/// The blocks that the catalog `m` gives the container: one per container
/// size, in file order, each with the pixels of its entry.
pub open spec fn icns_blocks_of(m: Map<u32, PixelImage>) -> Seq<BlockView> {
    Seq::new(icns_sizes().len(), |i: int| (icns_sizes()[i], m[icns_sizes()[i]].pixels@))
}

/// The elements of `blocks`: one per block, in block order, each the type
/// code of the block's edge with the block's raw bytes as payload.
pub open spec fn raw_elements(blocks: Seq<BlockView>) -> Seq<Element> {
    Seq::new(blocks.len(), |i: int| (icon_code(blocks[i].0)->0, blocks[i].1))
}

/// Every block has a registered edge and exactly `edge * edge * 4` bytes,
/// and the file they make fits its length field.
pub open spec fn blocks_packable(blocks: Seq<BlockView>) -> bool {
    &&& forall|i: int|
        0 <= i < blocks.len() ==> icon_code((#[trigger] blocks[i]).0) is Some && blocks[i].1.len()
            == blocks[i].0 * blocks[i].0 * 4
    &&& icns_fits(raw_elements(blocks))
}

/// Copies the pixels of `image` into a block, byte for byte.
pub fn copy_block(image: &PixelImage) -> (r: IconBlock)
    ensures
        r.edge == image.width,
        r.rgba@ == image.pixels@,
{
    let n: usize = image.pixels.len();
    let mut rgba: Vec<u8> = Vec::with_capacity(n);
    let mut i: usize = 0;
    while i < n
        invariant
            0 <= i <= n,
            n == image.pixels@.len(),
            rgba@ == image.pixels@.take(i as int),
        decreases n - i,
    {
        rgba.push(image.pixels[i]);
        proof {
            assert(rgba@ =~= image.pixels@.take(i + 1));
        }
        i = i + 1;
    }
    proof {
        assert(image.pixels@.take(n as int) =~= image.pixels@);
    }
    IconBlock { edge: image.width, rgba }
}

/// Selects the container sizes from `catalog` and copies each entry into a
/// raw RGBA block.
///
/// Fails with `MissingSize` for the first container size that the catalog
/// lacks. Otherwise there are exactly five blocks, of the edges 512, 256,
/// 128, 32 and 16 in this order, each exactly `edge * edge * 4` bytes long
/// and equal to the pixels of its catalog entry.
pub fn icns_blocks(catalog: &SizeCatalog) -> (r: Result<Vec<IconBlock>, IconError>)
    ensures
        match first_missing(catalog@, icns_sizes()) {
            Some(s) => r is Err && r->Err_0 == IconError::MissingSize(s),
            None => {
                &&& r is Ok
                &&& block_views(r->Ok_0@) == icns_blocks_of(catalog@)
                &&& r->Ok_0@.len() == 5
                &&& forall|i: int|
                    0 <= i < 5 ==> {
                        &&& (#[trigger] r->Ok_0@[i]).edge == icns_sizes()[i]
                        &&& r->Ok_0@[i].rgba@.len() == icns_sizes()[i] * icns_sizes()[i] * 4
                        &&& r->Ok_0@[i].wf()
                    }
            },
        },
{
    proof {
        use_type_invariant(catalog);
    }
    let images = match select_sizes(catalog, ICNS_SIZES.as_slice()) {
        Ok(images) => images,
        Err(e) => {
            return Err(e);
        },
    };
    proof {
        assert(ICNS_SIZES@ == icns_sizes());
        lemma_first_missing(catalog@, icns_sizes());
        assert forall|i: int| 0 <= i < images@.len() implies (#[trigger] images@[i]).is_square_of(
            icns_sizes()[i] as int,
        ) by {
            assert(catalog@.contains_key(icns_sizes()[i]));
        }
    }
    let mut blocks: Vec<IconBlock> = Vec::new();
    let mut i: usize = 0;
    while i < images.len()
        invariant
            0 <= i <= images@.len(),
            images@.len() == 5,
            blocks@.len() == i,
            forall|j: int|
                0 <= j < images@.len() ==> (#[trigger] images@[j]).is_square_of(
                    icns_sizes()[j] as int,
                ),
            forall|j: int|
                0 <= j < images@.len() ==> *(#[trigger] images@[j]) == catalog@[icns_sizes()[j]],
            forall|j: int|
                0 <= j < i ==> (#[trigger] blocks@[j]).edge == icns_sizes()[j] && blocks@[j].rgba@
                    == catalog@[icns_sizes()[j]].pixels@,
        decreases images@.len() - i,
    {
        let block = copy_block(images[i]);
        blocks.push(block);
        i = i + 1;
    }
    proof {
        assert(block_views(blocks@) =~= icns_blocks_of(catalog@));
        assert forall|i: int| 0 <= i < 5 implies {
            &&& (#[trigger] blocks@[i]).edge == icns_sizes()[i]
            &&& blocks@[i].rgba@.len() == icns_sizes()[i] * icns_sizes()[i] * 4
            &&& blocks@[i].wf()
        } by {
            assert(images@[i].is_square_of(icns_sizes()[i] as int));
        }
    }
    Ok(blocks)
}

/// More elements are at least as long as fewer.
pub proof fn lemma_elements_len_grows(elements: Seq<Element>, i: int, j: int)
    requires
        0 <= i <= j,
    ensures
        0 <= elements_len(elements, i) <= elements_len(elements, j),
    decreases j,
{
    if i < j {
        lemma_elements_len_grows(elements, i, j - 1);
    } else if i > 0 {
        lemma_elements_len_grows(elements, i - 1, i - 1);
        lemma_elements_len_grows(elements, 0, i - 1);
    }
}

/// The elements in the file are as long as `elements_len` says.
pub proof fn lemma_elements_bytes_len(elements: Seq<Element>, upto: int)
    requires
        0 <= upto,
        8 + elements_len(elements, upto) <= 0xffff_ffff,
    ensures
        elements_bytes(elements, upto).len() == elements_len(elements, upto),
    decreases upto,
{
    if upto > 0 {
        lemma_elements_len_grows(elements, upto - 1, upto);
        lemma_elements_bytes_len(elements, upto - 1);
    }
}

/// A packed file begins with the magic `icns` and declares its own length
/// in the four bytes that follow.
pub proof fn lemma_file_declares_its_length(elements: Seq<Element>)
    requires
        icns_fits(elements),
    ensures
        icns_file(elements).len() == 8 + elements_len(elements, elements.len() as int),
        icns_file(elements).subrange(0, 4) == seq![0x69u8, 0x63u8, 0x6eu8, 0x73u8],
        read_be32(icns_file(elements), 4) == icns_file(elements).len(),
{
    let n = elements.len() as int;
    let total = (8 + elements_len(elements, n)) as u32;
    let file = icns_file(elements);
    lemma_elements_len_grows(elements, 0, n);
    lemma_elements_bytes_len(elements, n);
    lemma_be32_round_trip(total);
    assert(file.subrange(0, 4) =~= seq![0x69u8, 0x63u8, 0x6eu8, 0x73u8]);
    assert(file[4] == be32(total)[0] && file[5] == be32(total)[1] && file[6] == be32(total)[2]
        && file[7] == be32(total)[3]);
}

/// Whether the file made of `blocks` fits its length field.
pub fn blocks_fit(blocks: &Vec<IconBlock>) -> (r: bool)
    ensures
        r == icns_fits(raw_elements(block_views(blocks@))),
{
    let ghost elements = raw_elements(block_views(blocks@));
    let mut total: u64 = 8;
    let mut i: usize = 0;
    while i < blocks.len()
        invariant
            0 <= i <= blocks@.len(),
            elements == raw_elements(block_views(blocks@)),
            total == 8 + elements_len(elements, i as int),
            total <= 0xffff_ffff,
        decreases blocks@.len() - i,
    {
        let len: usize = blocks[i].rgba.len();
        proof {
            assert(elements[i as int].1 == blocks@[i as int].rgba@);
            assert(elements_len(elements, i + 1) == elements_len(elements, i as int) + 8 + len);
        }
        if len > 0xffff_ffff || (len as u64) + 8 > 0xffff_ffff - total {
            proof {
                lemma_elements_len_grows(elements, i + 1, elements.len() as int);
            }
            return false;
        }
        total = total + 8 + (len as u64);
        i = i + 1;
    }
    true
}

/// Stores every block as one element, in order, and serialises the family.
///
/// The blocks are packed exactly when each has a registered edge and
/// exactly `edge * edge * 4` bytes and the file fits its length field;
/// anything else is `IoError`. The file holds one element per block: the
/// type code of its edge, and its bytes, unchanged.
pub fn pack_icns(blocks: &Vec<IconBlock>) -> (r: Result<Vec<u8>, IconError>)
    ensures
        r is Ok <==> blocks_packable(block_views(blocks@)),
        r is Ok ==> r->Ok_0@ == icns_file(raw_elements(block_views(blocks@))),
        r is Err ==> r->Err_0 == IconError::IoError,
{
    let ghost views = block_views(blocks@);
    if !blocks_fit(blocks) {
        return Err(IconError::IoError);
    }
    let mut family = family_new();
    let mut i: usize = 0;
    while i < blocks.len()
        invariant
            0 <= i <= blocks@.len(),
            views == block_views(blocks@),
            family_elements(family) == raw_elements(views).take(i as int),
            forall|j: int|
                0 <= j < i ==> icon_code((#[trigger] views[j]).0) is Some && views[j].1.len()
                    == views[j].0 * views[j].0 * 4,
        decreases blocks@.len() - i,
    {
        let block: &IconBlock = &blocks[i];
        proof {
            assert(views[i as int] == (block.edge, block.rgba@));
        }
        if !block.holds_all_pixels() {
            return Err(IconError::IoError);
        }
        if !family_push(&mut family, block) {
            return Err(IconError::IoError);
        }
        proof {
            assert(raw_elements(views).take(i + 1) =~= raw_elements(views).take(i as int).push(
                (icon_code(block.edge)->0, block.rgba@),
            ));
        }
        i = i + 1;
    }
    proof {
        assert(raw_elements(views).take(i as int) =~= raw_elements(views));
    }
    Ok(family_write(&family))
}

/// The five blocks of a catalog that holds every container size can always
/// be packed.
pub proof fn lemma_catalog_blocks_packable(m: Map<u32, PixelImage>)
    requires
        entries_match_keys(m),
        first_missing(m, icns_sizes()) is None,
    ensures
        blocks_packable(icns_blocks_of(m)),
        elements_len(raw_elements(icns_blocks_of(m)), 5) == 1381416,
{
    let blocks = icns_blocks_of(m);
    let elements = raw_elements(blocks);
    lemma_first_missing(m, icns_sizes());
    assert forall|i: int| 0 <= i < 5 implies icon_code((#[trigger] blocks[i]).0) is Some
        && blocks[i].1.len() == blocks[i].0 * blocks[i].0 * 4 && elements[i].1.len()
        == icns_sizes()[i] * icns_sizes()[i] * 4 by {
        let s = icns_sizes()[i];
        assert(m.contains_key(s));
        let image = m[s];
        assert(image.pixels@.len() == s * s * 4) by (nonlinear_arith)
            requires
                image.pixels@.len() == image.width * image.height * 4,
                image.width == s,
                image.height == s,
        ;
    }
    assert(elements[0].1.len() == 512 * 512 * 4);
    assert(elements[1].1.len() == 256 * 256 * 4);
    assert(elements[2].1.len() == 128 * 128 * 4);
    assert(elements[3].1.len() == 32 * 32 * 4);
    assert(elements[4].1.len() == 16 * 16 * 4);
    assert(elements_len(elements, 0) == 0);
    assert(elements_len(elements, 1) == 8 + 1048576);
    assert(elements_len(elements, 2) == 16 + 1048576 + 262144);
    assert(elements_len(elements, 3) == 24 + 1048576 + 262144 + 65536);
    assert(elements_len(elements, 4) == 32 + 1048576 + 262144 + 65536 + 4096);
    assert(elements_len(elements, 5) == 40 + 1048576 + 262144 + 65536 + 4096 + 1024);
}

/// What packing the catalog `m` under `target_name` ends in.
///
/// A container size that the catalog lacks gives `MissingSize`, naming the
/// first such size in file order. With every size present a file is
/// returned: it bears the completed name and holds exactly five elements,
/// for 512, 256, 128, 32 and 16 in this order, each the type code of its
/// edge and the raw pixels of its catalog entry, `edge * edge * 4` bytes.
pub open spec fn icns_outcome(
    m: Map<u32, PixelImage>,
    target_name: Seq<char>,
    r: Result<NamedFile, IconError>,
) -> bool {
    match first_missing(m, icns_sizes()) {
        Some(s) => r is Err && r->Err_0 == IconError::MissingSize(s),
        None => {
            &&& r is Ok
            &&& r->Ok_0.name@ == completed_name(target_name, ".icns"@)
            &&& r->Ok_0.bytes@ == icns_file(raw_elements(icns_blocks_of(m)))
            &&& icns_fits(raw_elements(icns_blocks_of(m)))
        },
    }
}

/// Packs the container sizes of `catalog` into one icon file named
/// `target_name`, with `.icns` appended where the name holds no dot.
pub fn fill_icns(catalog: &SizeCatalog, target_name: &str) -> (r: Result<NamedFile, IconError>)
    ensures
        icns_outcome(catalog@, target_name@, r),
{
    proof {
        use_type_invariant(catalog);
    }
    let blocks = match icns_blocks(catalog) {
        Ok(blocks) => blocks,
        Err(e) => {
            return Err(e);
        },
    };
    proof {
        lemma_catalog_blocks_packable(catalog@);
    }
    match pack_icns(&blocks) {
        Ok(bytes) => Ok(NamedFile { name: with_default_extension(target_name, ".icns"), bytes }),
        Err(e) => Err(e),
    }
}

} // verus!
