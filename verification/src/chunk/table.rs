//! Access to the generic chunked-container format through git_chunk: the
//! table of contents maps a four-byte chunk kind to the byte range holding
//! that chunk. The container format itself is consumed, not reimplemented;
//! every call into it goes through the trusted items below.

use vstd::prelude::*;
use git_chunk::file::decode::Error as DecodeError;

verus! {

/// Chunk kind tag of the pack-names chunk ("PNAM").
pub const PACK_NAMES_ID: u32 = 0x504e_414d;

/// Chunk kind tag of the fanout chunk ("OIDF").
pub const FANOUT_ID: u32 = 0x4f49_4446;

/// Chunk kind tag of the object-id lookup chunk ("OIDL").
pub const LOOKUP_ID: u32 = 0x4f49_444c;

/// Chunk kind tag of the offsets chunk ("OOFF").
pub const OFFSETS_ID: u32 = 0x4f4f_4646;

/// Chunk kind tag of the large-offsets chunk ("LOFF").
pub const LARGE_OFFSETS_ID: u32 = 0x4c4f_4646;

#[verifier::external_type_specification]
#[verifier::external_body]
pub struct ExIndex(git_chunk::file::Index);

/// The chunk ranges held by a parsed table of contents: a map from the
/// chunk kind, read as a big-endian 32-bit tag, to the byte range of that
/// chunk within the file.
pub uninterp spec fn chunk_ranges(idx: git_chunk::file::Index) -> Map<u32, (int, int)>;

/// What parsing a table of contents out of `data` at `toc_offset` with
/// `num_chunks` entries yields: the chunk ranges, or nothing when the
/// table is malformed.
pub uninterp spec fn chunk_table_of(data: Seq<u8>, toc_offset: int, num_chunks: int) -> Option<
    Map<u32, (int, int)>,
>;

/// Why a table of contents failed to parse; mirrors git_chunk's decode
/// errors.
#[derive(Debug)]
pub enum TocError {
    EarlySentinelValue,
    MissingSentinelValue { actual: u32 },
    ChunkSizeOutOfBounds { offset: u64, file_length: u64 },
    NonIncrementalChunkOffsets,
    DuplicateChunk { kind: u32 },
    TocTooSmall { actual_size: usize, expected_size: usize },
    Empty,
}

/// Relies on git_chunk::file::Index::from_bytes: it parses the table of
/// contents and accepts it only when every chunk range is non-empty,
/// strictly ascending and within the file.
#[verifier::external_body]
pub(crate) fn toc_from_bytes(data: &[u8], toc_offset: usize, num_chunks: u32) -> (r: Result<
    git_chunk::file::Index,
    TocError,
>)
    requires
        toc_offset <= data@.len(),
    ensures
        r is Ok <==> chunk_table_of(data@, toc_offset as int, num_chunks as int) is Some,
        r matches Ok(idx) ==> Some(chunk_ranges(idx)) == chunk_table_of(
            data@,
            toc_offset as int,
            num_chunks as int,
        ),
        r matches Ok(idx) ==> forall|k: u32| #[trigger]
            chunk_ranges(idx).dom().contains(k) ==> 0 <= chunk_ranges(idx)[k].0
                < chunk_ranges(idx)[k].1 <= data@.len(),
{
    match git_chunk::file::Index::from_bytes(data, toc_offset, num_chunks) {
        Ok(idx) => Ok(idx),
        Err(DecodeError::EarlySentinelValue) => Err(TocError::EarlySentinelValue),
        Err(DecodeError::MissingSentinelValue { actual }) => Err(TocError::MissingSentinelValue { actual: u32::from_be_bytes(actual) }),
        Err(DecodeError::ChunkSizeOutOfBounds { offset, file_length }) => Err(TocError::ChunkSizeOutOfBounds { offset, file_length }),
        Err(DecodeError::NonIncrementalChunkOffsets) => Err(TocError::NonIncrementalChunkOffsets),
        Err(DecodeError::DuplicateChunk { kind }) => Err(TocError::DuplicateChunk { kind: u32::from_be_bytes(kind) }),
        Err(DecodeError::TocTooSmall { actual, expected }) => Err(TocError::TocTooSmall { actual_size: actual, expected_size: expected }),
        Err(DecodeError::Empty) => Err(TocError::Empty),
    }
}

/// Relies on git_chunk::file::Index::usize_offset_by_id: it returns the
/// stored byte range of the chunk with the given kind, if one is present.
#[verifier::external_body]
pub(crate) fn toc_offset_by_id(idx: &git_chunk::file::Index, kind: u32) -> (r: Option<(usize, usize)>)
    requires
        forall|k: u32| #[trigger]
            chunk_ranges(*idx).dom().contains(k) ==> 0 <= chunk_ranges(*idx)[k].0 <= chunk_ranges(
                *idx,
            )[k].1 <= usize::MAX,
    ensures
        r is Some <==> chunk_ranges(*idx).dom().contains(kind),
        r matches Some((s, e)) ==> chunk_ranges(*idx)[kind] == (s as int, e as int),
{
    match idx.usize_offset_by_id(kind.to_be_bytes()) {
        Ok(range) => Some((range.start, range.end)),
        Err(_) => None,
    }
}

/// Relies on git_chunk::file::Index::EMPTY_SIZE: the byte size of a table
/// of contents holding only the sentinel entry.
#[verifier::external_body]
pub(crate) fn toc_empty_size() -> (r: usize)
    ensures
        r == 12,
{
    git_chunk::file::Index::EMPTY_SIZE
}

} // verus!
