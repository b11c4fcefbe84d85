//! What a reader finds in an icon container, and the proof that it finds
//! the frames that were packed.

use crate::catalog::{entries_match_keys, first_missing, lemma_first_missing};
use crate::codec::png_encoding;
use crate::ico::{
    frame_of, ico_frames_of, ico_sizes,
    frame_offset, ico_directory, ico_entry, ico_entry_len, ico_file, ico_fits, ico_header_len,
    ico_payload, le16, le32, lemma_payload_len_grows, payload_len, FrameView,
};
use crate::pixel::PixelImage;
use vstd::prelude::*;

verus! {

/// The 16-bit little-endian number at `at`.
pub open spec fn read_le16(file: Seq<u8>, at: int) -> int {
    file[at] + 0x100 * file[at + 1]
}

/// The 32-bit little-endian number at `at`.
pub open spec fn read_le32(file: Seq<u8>, at: int) -> int {
    file[at] + 0x100 * file[at + 1] + 0x1_0000 * file[at + 2] + 0x100_0000 * file[at + 3]
}

/// Where directory entry `i` starts.
pub open spec fn entry_start(i: int) -> int {
    ico_header_len() + ico_entry_len() * i
}

/// A size byte of the directory: 0 stands for 256.
pub open spec fn size_byte(b: u8) -> int {
    if b == 0 {
        256
    } else {
        b as int
    }
}

/// Number of frames that the header declares.
pub open spec fn declared_count(file: Seq<u8>) -> int {
    read_le16(file, 4)
}

/// Width that directory entry `i` declares.
pub open spec fn declared_width(file: Seq<u8>, i: int) -> int {
    size_byte(file[entry_start(i)])
}

/// Height that directory entry `i` declares.
pub open spec fn declared_height(file: Seq<u8>, i: int) -> int {
    size_byte(file[entry_start(i) + 1])
}

/// Bits per pixel that directory entry `i` declares.
pub open spec fn declared_depth(file: Seq<u8>, i: int) -> int {
    read_le16(file, entry_start(i) + 6)
}

/// Length of the stream that directory entry `i` points to.
pub open spec fn declared_size(file: Seq<u8>, i: int) -> int {
    read_le32(file, entry_start(i) + 8)
}

/// Offset of the stream that directory entry `i` points to.
pub open spec fn declared_offset(file: Seq<u8>, i: int) -> int {
    read_le32(file, entry_start(i) + 12)
}

/// The stream that directory entry `i` points to.
pub open spec fn stored_frame(file: Seq<u8>, i: int) -> Seq<u8> {
    file.subrange(declared_offset(file, i), declared_offset(file, i) + declared_size(file, i))
}

/// Reading four little-endian bytes gives back the number they were made of.
pub proof fn lemma_le32_round_trip(v: int)
    requires
        0 <= v <= 0xffff_ffff,
    ensures
        le32(v).len() == 4,
        read_le32(le32(v), 0) == v,
{
}

/// The directory of `upto` frames is `upto` entries long, and each entry is
/// found at its place.
pub proof fn lemma_directory_entries(frames: Seq<FrameView>, upto: int, i: int)
    requires
        0 <= i < upto,
    ensures
        ico_directory(frames, upto).len() == ico_entry_len() * upto,
        ico_directory(frames, upto).subrange(ico_entry_len() * i, ico_entry_len() * (i + 1))
            == ico_entry(frames[i].0, frames[i].1.len() as int, frame_offset(frames, i)),
    decreases upto,
{
    let entry = ico_entry(
        frames[upto - 1].0,
        frames[upto - 1].1.len() as int,
        frame_offset(frames, upto - 1),
    );
    assert(entry.len() == 16);
    if upto == 1 {
        assert(ico_directory(frames, 0).len() == 0);
        assert(ico_directory(frames, 1) =~= entry);
        assert(ico_directory(frames, 1).subrange(0, 16) =~= entry);
    } else if i == upto - 1 {
        lemma_directory_entries(frames, upto - 1, 0);
        assert(ico_directory(frames, upto).subrange(16 * i, 16 * (i + 1)) =~= entry);
    } else {
        lemma_directory_entries(frames, upto - 1, i);
        assert(ico_directory(frames, upto).subrange(16 * i, 16 * (i + 1)) =~= ico_directory(
            frames,
            upto - 1,
        ).subrange(16 * i, 16 * (i + 1)));
    }
}

/// The streams of `upto` frames are as long as `payload_len` says, and each
/// stream is found at its place.
pub proof fn lemma_payload_frames(frames: Seq<FrameView>, upto: int, i: int)
    requires
        0 <= i < upto,
    ensures
        ico_payload(frames, upto).len() == payload_len(frames, upto),
        0 <= payload_len(frames, i),
        payload_len(frames, i + 1) <= payload_len(frames, upto),
        ico_payload(frames, upto).subrange(payload_len(frames, i), payload_len(frames, i + 1))
            == frames[i].1,
    decreases upto,
{
    lemma_payload_len_grows(frames, 0, i);
    lemma_payload_len_grows(frames, i + 1, upto);
    if upto == 1 {
        assert(ico_payload(frames, 0).len() == 0);
        assert(ico_payload(frames, 1) =~= frames[0].1);
        assert(ico_payload(frames, 1).subrange(0, payload_len(frames, 1)) =~= frames[0].1);
    } else if i == upto - 1 {
        lemma_payload_frames(frames, upto - 1, 0);
        assert(ico_payload(frames, upto).subrange(
            payload_len(frames, i),
            payload_len(frames, i + 1),
        ) =~= frames[i].1);
    } else {
        lemma_payload_frames(frames, upto - 1, i);
        assert(ico_payload(frames, upto).subrange(
            payload_len(frames, i),
            payload_len(frames, i + 1),
        ) =~= ico_payload(frames, upto - 1).subrange(
            payload_len(frames, i),
            payload_len(frames, i + 1),
        ));
    }
}

/// The fields of a directory entry, read back from its sixteen bytes.
pub proof fn lemma_entry_fields(edge: u32, size: int, offset: int)
    requires
        1 <= edge <= 256,
        0 <= size <= 0xffff_ffff,
        0 <= offset <= 0xffff_ffff,
    ensures
        ico_entry(edge, size, offset).len() == 16,
        size_byte(ico_entry(edge, size, offset)[0]) == edge,
        size_byte(ico_entry(edge, size, offset)[1]) == edge,
        read_le16(ico_entry(edge, size, offset), 6) == 32,
        read_le32(ico_entry(edge, size, offset), 8) == size,
        read_le32(ico_entry(edge, size, offset), 12) == offset,
{
    let entry = ico_entry(edge, size, offset);
    lemma_le32_round_trip(size);
    lemma_le32_round_trip(offset);
    assert(entry[8] == le32(size)[0] && entry[9] == le32(size)[1] && entry[10] == le32(size)[2]
        && entry[11] == le32(size)[3]);
    assert(entry[12] == le32(offset)[0] && entry[13] == le32(offset)[1] && entry[14] == le32(
        offset,
    )[2] && entry[15] == le32(offset)[3]);
}

/// The file is the header, the directory and the streams, one after the
/// other.
pub proof fn lemma_file_parts(frames: Seq<FrameView>)
    requires
        1 <= frames.len(),
    ensures
        ico_file(frames).len() == frame_offset(frames, frames.len() as int),
        ico_file(frames).subrange(0, 6) == seq![0u8, 0u8, 1u8, 0u8] + le16(frames.len() as int),
        ico_file(frames).subrange(6, 6 + ico_entry_len() * frames.len()) == ico_directory(
            frames,
            frames.len() as int,
        ),
        ico_file(frames).subrange(
            6 + ico_entry_len() * frames.len(),
            ico_file(frames).len() as int,
        ) == ico_payload(frames, frames.len() as int),
{
    let n = frames.len() as int;
    lemma_directory_entries(frames, n, 0);
    lemma_payload_frames(frames, n, 0);
    let file = ico_file(frames);
    assert(file.subrange(0, 6) =~= seq![0u8, 0u8, 1u8, 0u8] + le16(n));
    assert(file.subrange(6, 6 + 16 * n) =~= ico_directory(frames, n));
    assert(file.subrange(6 + 16 * n, file.len() as int) =~= ico_payload(frames, n));
}

/// A reader of a packed container finds what was packed: the header
/// declares the number of frames, and directory entry `i` declares the edge
/// of frame `i` as width and as height, 32 bits per pixel, and the place and
/// length of a stream that is the frame's stream, byte for byte.
pub proof fn lemma_reader_finds_frames(frames: Seq<FrameView>, i: int)
    requires
        ico_fits(frames),
        0 <= i < frames.len(),
        1 <= frames[i].0 <= 256,
    ensures
        ico_file(frames).len() == frame_offset(frames, frames.len() as int),
        declared_count(ico_file(frames)) == frames.len(),
        declared_width(ico_file(frames), i) == frames[i].0,
        declared_height(ico_file(frames), i) == frames[i].0,
        declared_depth(ico_file(frames), i) == 32,
        declared_size(ico_file(frames), i) == frames[i].1.len(),
        declared_offset(ico_file(frames), i) == frame_offset(frames, i),
        stored_frame(ico_file(frames), i) == frames[i].1,
{
    let n = frames.len() as int;
    let file = ico_file(frames);
    let directory = ico_directory(frames, n);
    let payload = ico_payload(frames, n);
    let size = frames[i].1.len() as int;
    let offset = frame_offset(frames, i);
    let entry = ico_entry(frames[i].0, size, offset);
    let start = entry_start(i);
    lemma_file_parts(frames);
    lemma_payload_len_grows(frames, i, n);
    lemma_payload_len_grows(frames, i + 1, n);
    assert(payload_len(frames, i + 1) == payload_len(frames, i) + size);
    assert(0 <= size <= 0xffff_ffff && 0 <= offset <= 0xffff_ffff);
    lemma_entry_fields(frames[i].0, size, offset);
    assert(declared_count(file) == n) by {
        let header = file.subrange(0, 6);
        assert(header[4] == file[4] && header[5] == file[5]);
        assert(header[4] == le16(n)[0] && header[5] == le16(n)[1]);
    }
    assert forall|k: int| 0 <= k < 16 implies #[trigger] file[start + k] == entry[k] by {
        lemma_directory_entries(frames, n, i);
        let region = file.subrange(6, 6 + 16 * n);
        assert(region[16 * i + k] == file[6 + 16 * i + k]);
        assert(directory.subrange(16 * i, 16 * (i + 1))[k] == directory[16 * i + k]);
    }
    assert(file[start] == entry[0] && file[start + 1] == entry[1]) by {
        assert(file[start + 0] == entry[0]);
        assert(file[start + 1] == entry[1]);
    }
    assert(read_le16(file, start + 6) == read_le16(entry, 6)) by {
        assert(file[start + 6] == entry[6]);
        assert(file[start + 7] == entry[7]);
    }
    assert(read_le32(file, start + 8) == read_le32(entry, 8)) by {
        assert(file[start + 8] == entry[8]);
        assert(file[start + 9] == entry[9]);
        assert(file[start + 10] == entry[10]);
        assert(file[start + 11] == entry[11]);
    }
    assert(read_le32(file, start + 12) == read_le32(entry, 12)) by {
        assert(file[start + 12] == entry[12]);
        assert(file[start + 13] == entry[13]);
        assert(file[start + 14] == entry[14]);
        assert(file[start + 15] == entry[15]);
    }
    assert(stored_frame(file, i) == frames[i].1) by {
        lemma_payload_frames(frames, n, i);
        let region = file.subrange(6 + 16 * n, file.len() as int);
        assert(file.subrange(offset, offset + size) =~= region.subrange(
            payload_len(frames, i),
            payload_len(frames, i + 1),
        ));
    }
}

/// The container packed from a catalog holds exactly four frames, of the
/// declared sizes 256, 64, 32 and 16 in this order, and the stream of each
/// is the PNG stream of the catalog entry of that size.
pub proof fn lemma_container_holds_catalog_frames(m: Map<u32, PixelImage>, i: int)
    requires
        entries_match_keys(m),
        first_missing(m, ico_sizes()) is None,
        ico_fits(ico_frames_of(m)),
        0 <= i < 4,
    ensures
        ico_sizes() == seq![256u32, 64u32, 32u32, 16u32],
        declared_count(ico_file(ico_frames_of(m))) == 4,
        declared_width(ico_file(ico_frames_of(m)), i) == ico_sizes()[i],
        declared_height(ico_file(ico_frames_of(m)), i) == ico_sizes()[i],
        declared_depth(ico_file(ico_frames_of(m)), i) == 32,
        stored_frame(ico_file(ico_frames_of(m)), i) == png_encoding(
            ico_sizes()[i],
            ico_sizes()[i],
            m[ico_sizes()[i]].pixels@,
        ),
{
    let frames = ico_frames_of(m);
    lemma_first_missing(m, ico_sizes());
    assert(m.contains_key(ico_sizes()[i]));
    assert(frames[i] == frame_of(m[ico_sizes()[i]]));
    lemma_reader_finds_frames(frames, i);
}

} // verus!
