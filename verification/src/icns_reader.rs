//! What a reader finds in an Apple icon container, and the proof that it
//! finds the chunks that were packed.

use crate::catalog::{entries_match_keys, first_missing};
use crate::codec::{be32, lemma_be32_round_trip, read_be32};
use crate::icns::{
    elements_bytes, elements_len, icns_blocks_of, icns_file, icns_fits, icns_sizes, icon_code,
    lemma_catalog_blocks_packable, lemma_elements_bytes_len, lemma_elements_len_grows,
    raw_elements, Element,
};
use crate::pixel::PixelImage;
use vstd::prelude::*;

verus! {

/// Where chunk `i` starts: the first one after the eight bytes of the file
/// header, each next one after the length that the one before declares.
pub open spec fn chunk_start(file: Seq<u8>, i: int) -> int
    decreases i,
{
    if i <= 0 {
        8
    } else {
        chunk_start(file, i - 1) + read_be32(file, chunk_start(file, i - 1) + 4)
    }
}

/// The type code of chunk `i`, read as a big-endian number.
pub open spec fn chunk_code(file: Seq<u8>, i: int) -> int {
    read_be32(file, chunk_start(file, i))
}

/// The length of the payload of chunk `i`.
pub open spec fn chunk_len(file: Seq<u8>, i: int) -> int {
    read_be32(file, chunk_start(file, i) + 4) - 8
}

/// The payload of chunk `i`.
pub open spec fn chunk_payload(file: Seq<u8>, i: int) -> Seq<u8> {
    file.subrange(chunk_start(file, i) + 8, chunk_start(file, i) + 8 + chunk_len(file, i))
}

/// Element `i` as it stands in the file.
pub open spec fn element_bytes(element: Element) -> Seq<u8> {
    be32(element.0) + be32((8 + element.1.len()) as u32) + element.1
}

/// Among the bytes of the first `upto` elements, element `i` stands at the
/// length of the elements before it.
pub proof fn lemma_element_at(elements: Seq<Element>, upto: int, i: int)
    requires
        0 <= i < upto,
        8 + elements_len(elements, upto) <= 0xffff_ffff,
    ensures
        elements_bytes(elements, upto).len() == elements_len(elements, upto),
        0 <= elements_len(elements, i),
        elements_len(elements, i + 1) <= elements_len(elements, upto),
        elements_len(elements, i + 1) == elements_len(elements, i) + 8 + elements[i].1.len(),
        elements_bytes(elements, upto).subrange(
            elements_len(elements, i),
            elements_len(elements, i + 1),
        ) == element_bytes(elements[i]),
    decreases upto,
{
    lemma_elements_len_grows(elements, 0, i);
    lemma_elements_len_grows(elements, i + 1, upto);
    lemma_elements_len_grows(elements, upto - 1, upto);
    lemma_elements_bytes_len(elements, upto);
    lemma_elements_bytes_len(elements, upto - 1);
    let last = element_bytes(elements[upto - 1]);
    assert(elements_bytes(elements, upto) =~= elements_bytes(elements, upto - 1) + last);
    assert(last.len() == 8 + elements[upto - 1].1.len());
    if i == upto - 1 {
        assert(elements_bytes(elements, upto).subrange(
            elements_len(elements, i),
            elements_len(elements, i + 1),
        ) =~= last);
    } else {
        lemma_element_at(elements, upto - 1, i);
        assert(elements_bytes(elements, upto).subrange(
            elements_len(elements, i),
            elements_len(elements, i + 1),
        ) =~= elements_bytes(elements, upto - 1).subrange(
            elements_len(elements, i),
            elements_len(elements, i + 1),
        ));
    }
}

/// The header of an element, read back: its type code and its length.
pub proof fn lemma_element_fields(element: Element)
    requires
        8 + element.1.len() <= 0xffff_ffff,
    ensures
        element_bytes(element).len() == 8 + element.1.len(),
        read_be32(element_bytes(element), 0) == element.0,
        read_be32(element_bytes(element), 4) == 8 + element.1.len(),
        element_bytes(element).subrange(8, 8 + element.1.len() as int) == element.1,
{
    let bytes = element_bytes(element);
    let code = be32(element.0);
    let len = be32((8 + element.1.len()) as u32);
    lemma_be32_round_trip(element.0);
    lemma_be32_round_trip((8 + element.1.len()) as u32);
    assert(bytes[0] == code[0] && bytes[1] == code[1] && bytes[2] == code[2] && bytes[3]
        == code[3]);
    assert(bytes[4] == len[0] && bytes[5] == len[1] && bytes[6] == len[2] && bytes[7] == len[3]);
    assert(bytes.subrange(8, 8 + element.1.len() as int) =~= element.1);
}

/// In a packed file, element `i` stands after the file header and the
/// elements before it, and its header and payload read back as packed.
pub proof fn lemma_chunk_fields(elements: Seq<Element>, i: int)
    requires
        icns_fits(elements),
        0 <= i < elements.len(),
    ensures
        icns_file(elements).len() == 8 + elements_len(elements, elements.len() as int),
        0 <= elements_len(elements, i),
        8 + elements_len(elements, i + 1) <= icns_file(elements).len(),
        elements_len(elements, i + 1) == elements_len(elements, i) + 8 + elements[i].1.len(),
        read_be32(icns_file(elements), 8 + elements_len(elements, i)) == elements[i].0,
        read_be32(icns_file(elements), 8 + elements_len(elements, i) + 4) == 8
            + elements[i].1.len(),
        icns_file(elements).subrange(
            8 + elements_len(elements, i) + 8,
            8 + elements_len(elements, i + 1),
        ) == elements[i].1,
{
    let n = elements.len() as int;
    let file = icns_file(elements);
    let body = elements_bytes(elements, n);
    let at = elements_len(elements, i);
    let one = element_bytes(elements[i]);
    lemma_element_at(elements, n, i);
    lemma_element_fields(elements[i]);
    assert(file.len() == 8 + body.len());
    assert forall|k: int| 0 <= k < one.len() implies #[trigger] file[8 + at + k] == one[k] by {
        assert(body.subrange(at, elements_len(elements, i + 1))[k] == body[at + k]);
        assert(file[8 + (at + k)] == body[at + k]);
    }
    assert(read_be32(file, 8 + at) == read_be32(one, 0)) by {
        assert(file[8 + at + 0] == one[0]);
        assert(file[8 + at + 1] == one[1]);
        assert(file[8 + at + 2] == one[2]);
        assert(file[8 + at + 3] == one[3]);
    }
    assert(read_be32(file, 8 + at + 4) == read_be32(one, 4)) by {
        assert(file[8 + at + 4] == one[4]);
        assert(file[8 + at + 5] == one[5]);
        assert(file[8 + at + 6] == one[6]);
        assert(file[8 + at + 7] == one[7]);
    }
    let payload = file.subrange(8 + at + 8, 8 + elements_len(elements, i + 1));
    assert(payload.len() == elements[i].1.len());
    assert forall|k: int| 0 <= k < payload.len() implies #[trigger] payload[k] == elements[i].1[k] by {
        assert(file[8 + at + (8 + k)] == one[8 + k]);
        assert(one.subrange(8, 8 + elements[i].1.len() as int)[k] == one[8 + k]);
    }
    assert(payload =~= elements[i].1);
}

/// A reader that walks a packed file from chunk to chunk stands, at chunk
/// `i`, where element `i` was packed.
pub proof fn lemma_chunk_starts(elements: Seq<Element>, i: int)
    requires
        icns_fits(elements),
        0 <= i <= elements.len(),
    ensures
        chunk_start(icns_file(elements), i) == 8 + elements_len(elements, i),
    decreases i,
{
    if i > 0 {
        lemma_chunk_starts(elements, i - 1);
        lemma_chunk_fields(elements, i - 1);
    }
}

/// A reader of a packed file finds what was packed: chunk `i` bears the
/// type code of element `i` and holds its payload, byte for byte, and after
/// the last chunk the file ends.
pub proof fn lemma_reader_finds_elements(elements: Seq<Element>, i: int)
    requires
        icns_fits(elements),
        0 <= i < elements.len(),
    ensures
        chunk_start(icns_file(elements), elements.len() as int) == icns_file(elements).len(),
        chunk_code(icns_file(elements), i) == elements[i].0,
        chunk_len(icns_file(elements), i) == elements[i].1.len(),
        chunk_payload(icns_file(elements), i) == elements[i].1,
{
    lemma_chunk_starts(elements, elements.len() as int);
    lemma_chunk_starts(elements, i);
    lemma_chunk_fields(elements, i);
}

/// The file packed from a catalog holds exactly five chunks, for the edges
/// 512, 256, 128, 32 and 16 in this order. Each bears the type code of its
/// edge and holds the pixels of its catalog entry, raw and unchanged:
/// exactly `edge * edge * 4` bytes.
pub proof fn lemma_file_holds_catalog_chunks(m: Map<u32, PixelImage>, i: int)
    requires
        entries_match_keys(m),
        first_missing(m, icns_sizes()) is None,
        0 <= i < 5,
    ensures
        icns_sizes() == seq![512u32, 256u32, 128u32, 32u32, 16u32],
        icns_file(raw_elements(icns_blocks_of(m))).len() == 1381424,
        chunk_start(icns_file(raw_elements(icns_blocks_of(m))), 5) == icns_file(
            raw_elements(icns_blocks_of(m)),
        ).len(),
        icon_code(icns_sizes()[i]) is Some,
        chunk_code(icns_file(raw_elements(icns_blocks_of(m))), i) == icon_code(icns_sizes()[i])->0,
        chunk_len(icns_file(raw_elements(icns_blocks_of(m))), i) == icns_sizes()[i]
            * icns_sizes()[i] * 4,
        chunk_payload(icns_file(raw_elements(icns_blocks_of(m))), i) == m[icns_sizes()[i]].pixels@,
{
    let elements = raw_elements(icns_blocks_of(m));
    lemma_catalog_blocks_packable(m);
    lemma_reader_finds_elements(elements, i);
    lemma_chunk_fields(elements, i);
    assert(elements[i] == (icon_code(icns_sizes()[i])->0, m[icns_sizes()[i]].pixels@));
    let s = icns_sizes()[i];
    assert(icns_blocks_of(m)[i].1.len() == icns_blocks_of(m)[i].0 * icns_blocks_of(m)[i].0 * 4);
}

} // verus!
