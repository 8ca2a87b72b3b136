//! The `.vox` byte format as a function from bytes to what a reader makes of them.
use vstd::prelude::*;
use vstd::utf8::{valid_utf8, decode_utf8};
use crate::voxel_loader::{ChunkModel, LoadVoxError};

verus! {

/// The little-endian 32-bit number at `p`.
pub open spec fn le_u32_at(b: Seq<u8>, p: int) -> nat {
    (b[p] + 0x100 * b[p + 1] + 0x1_0000 * b[p + 2] + 0x100_0000 * b[p + 3]) as nat
}

/// The big-endian 32-bit number at `p`.
pub open spec fn be_u32_at(b: Seq<u8>, p: int) -> nat {
    (0x100_0000 * b[p] + 0x1_0000 * b[p + 1] + 0x100 * b[p + 2] + b[p + 3]) as nat
}

/// Reading one chunk at `pos`: the chunk and where the next one starts, the error the
/// reader reports, or `Underflow` when a chunk's children overrun the size that it
/// gives them (the reader's 32-bit count of children bytes would go below zero).
pub enum ChunkParse {
    Parsed(ChunkModel, int),
    Failed(LoadVoxError),
    Underflow,
}

pub enum ChildrenParse {
    Parsed(Seq<ChunkModel>, int),
    Failed(LoadVoxError),
    Underflow,
}

pub enum FileParse {
    Parsed(u32, ChunkModel),
    Failed(LoadVoxError),
    Underflow,
}

/// A chunk: a four-byte UTF-8 tag, the content size and the children size (both
/// little-endian), the content, then children until the children size is used up.
pub open spec fn parse_chunk(b: Seq<u8>, pos: int) -> ChunkParse
    decreases b.len() - pos, 0int,
{
    if pos < 0 || pos + 4 > b.len() {
        ChunkParse::Failed(LoadVoxError::CouldNotReadFile)
    } else if !valid_utf8(b.subrange(pos, pos + 4)) {
        ChunkParse::Failed(LoadVoxError::InvalidChunkName)
    } else if pos + 12 > b.len() {
        ChunkParse::Failed(LoadVoxError::CouldNotReadFile)
    } else {
        let content_size = le_u32_at(b, pos + 4);
        let children_size = le_u32_at(b, pos + 8);
        let start = pos + 12;
        if start + content_size > b.len() {
            ChunkParse::Failed(LoadVoxError::CouldNotReadFile)
        } else {
            match parse_children(b, start + content_size, children_size as int) {
                ChildrenParse::Parsed(children, next) => ChunkParse::Parsed(
                    ChunkModel {
                        tag: decode_utf8(b.subrange(pos, pos + 4)),
                        content: b.subrange(start, start + content_size),
                        children,
                    },
                    next,
                ),
                ChildrenParse::Failed(e) => ChunkParse::Failed(e),
                ChildrenParse::Underflow => ChunkParse::Underflow,
            }
        }
    }
}

/// How many bytes the reader counts for a child: its content, plus one per child of
/// its own, plus the 12-byte header, taken modulo `2^32`.
pub open spec fn counted_size(c: ChunkModel) -> int {
    ((c.content.len() + c.children.len() + 12) % 0x1_0000_0000) as int
}

/// Children read from `pos` while `remaining` is above zero, each taking its counted
/// size off `remaining`.
pub open spec fn parse_children(b: Seq<u8>, pos: int, remaining: int) -> ChildrenParse
    decreases b.len() - pos, 1int,
{
    if remaining <= 0 {
        ChildrenParse::Parsed(Seq::empty(), pos)
    } else if pos < 0 || pos > b.len() {
        ChildrenParse::Failed(LoadVoxError::CouldNotReadFile)
    } else {
        match parse_chunk(b, pos) {
            ChunkParse::Failed(e) => ChildrenParse::Failed(e),
            ChunkParse::Underflow => ChildrenParse::Underflow,
            ChunkParse::Parsed(child, next) => {
                if counted_size(child) > remaining {
                    ChildrenParse::Underflow
                } else if next <= pos || next > b.len() {
                    ChildrenParse::Failed(LoadVoxError::CouldNotReadFile)
                } else {
                    match parse_children(b, next, remaining - counted_size(child)) {
                        ChildrenParse::Parsed(rest, end) => ChildrenParse::Parsed(seq![child] + rest, end),
                        ChildrenParse::Failed(e) => ChildrenParse::Failed(e),
                        ChildrenParse::Underflow => ChildrenParse::Underflow,
                    }
                }
            },
        }
    }
}

/// The magic bytes `VOX `.
pub open spec fn vox_magic() -> Seq<u8> {
    seq![0x56u8, 0x4Fu8, 0x58u8, 0x20u8]
}

pub open spec fn main_tag() -> Seq<char> {
    seq!['M', 'A', 'I', 'N']
}

pub open spec fn size_tag() -> Seq<char> {
    seq!['S', 'I', 'Z', 'E']
}

pub open spec fn xyzi_tag() -> Seq<char> {
    seq!['X', 'Y', 'Z', 'I']
}

pub open spec fn rgba_tag() -> Seq<char> {
    seq!['R', 'G', 'B', 'A']
}

pub open spec fn pack_tag() -> Seq<char> {
    seq!['P', 'A', 'C', 'K']
}

/// A file: `VOX `, the version (little-endian), then the main chunk, tagged `MAIN`.
/// Bytes after the main chunk are not read.
pub open spec fn parse_vox(b: Seq<u8>) -> FileParse {
    if b.len() < 4 {
        FileParse::Failed(LoadVoxError::CouldNotReadFile)
    } else if b.subrange(0, 4) != vox_magic() {
        FileParse::Failed(LoadVoxError::InvalidFileHeader)
    } else if b.len() < 8 {
        FileParse::Failed(LoadVoxError::CouldNotReadFile)
    } else {
        match parse_chunk(b, 8) {
            ChunkParse::Parsed(main, _) => if main.tag != main_tag() {
                FileParse::Failed(LoadVoxError::NoMainChunk)
            } else {
                FileParse::Parsed(le_u32_at(b, 4) as u32, main)
            },
            ChunkParse::Failed(e) => FileParse::Failed(e),
            ChunkParse::Underflow => FileParse::Underflow,
        }
    }
}

/// A file is read only when it starts with the bytes `V`, `O`, `X`, space; its version
/// is then bytes 4 to 7, little-endian, and its main chunk is tagged `MAIN`. A file of
/// four bytes or more that starts otherwise is refused as an invalid header.
pub proof fn lemma_file_header(b: Seq<u8>)
    ensures
        parse_vox(b) matches FileParse::Parsed(v, m) ==> b.len() >= 20
            && b[0] == 0x56 && b[1] == 0x4F && b[2] == 0x58 && b[3] == 0x20
            && v == b[4] + 256 * b[5] + 65536 * b[6] + 16777216 * b[7]
            && m.tag == seq!['M', 'A', 'I', 'N'],
        b.len() >= 4 && !(b[0] == 0x56 && b[1] == 0x4F && b[2] == 0x58 && b[3] == 0x20)
            ==> parse_vox(b) == FileParse::Failed(LoadVoxError::InvalidFileHeader),
{
    lemma_parse_chunk_advances(b, 8);
    if b.len() >= 4 {
        if b.subrange(0, 4) == vox_magic() {
            assert(b.subrange(0, 4)[0] == b[0] && b.subrange(0, 4)[1] == b[1]
                && b.subrange(0, 4)[2] == b[2] && b.subrange(0, 4)[3] == b[3]);
        } else if b[0] == 0x56 && b[1] == 0x4F && b[2] == 0x58 && b[3] == 0x20 {
            assert(b.subrange(0, 4) =~= vox_magic());
        }
    }
}

/// A chunk read at `pos` ends at least 12 bytes later and within the bytes.
pub proof fn lemma_parse_chunk_advances(b: Seq<u8>, pos: int)
    ensures
        parse_chunk(b, pos) matches ChunkParse::Parsed(_, next) ==> pos + 12 <= next <= b.len(),
    decreases b.len() - pos, 0int,
{
    if 0 <= pos && pos + 12 <= b.len() && valid_utf8(b.subrange(pos, pos + 4)) {
        let start = pos + 12;
        let content_size = le_u32_at(b, pos + 4);
        if start + content_size <= b.len() {
            lemma_parse_children_advances(b, start + content_size, le_u32_at(b, pos + 8) as int);
        }
    }
}

pub proof fn lemma_parse_children_advances(b: Seq<u8>, pos: int, remaining: int)
    ensures
        parse_children(b, pos, remaining) matches ChildrenParse::Parsed(_, next) ==> pos <= next,
        0 <= pos <= b.len() ==> (parse_children(b, pos, remaining) matches ChildrenParse::Parsed(_, next) ==> next <= b.len()),
    decreases b.len() - pos, 1int,
{
    if remaining > 0 && 0 <= pos <= b.len() {
        lemma_parse_chunk_advances(b, pos);
        if let ChunkParse::Parsed(child, next) = parse_chunk(b, pos) {
            if counted_size(child) <= remaining && next > pos && next <= b.len() {
                lemma_parse_children_advances(b, next, remaining - counted_size(child));
            }
        }
    }
}

} // verus!
