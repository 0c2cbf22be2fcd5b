//! The multi-pack index file: a consolidated index over many pack files,
//! holding per-pack names, a 256-entry fanout table, an ordered object-id
//! lookup table, a 32-bit offset table and an optional 64-bit large-offset
//! table. `from_bytes` validates the header and every required chunk;
//! `find` resolves an object id to its owning pack and byte offset.

use vstd::prelude::*;
use vstd::string::StringExecFns;
use crate::bytes::{
    be_u32_at, be_u64_at, lemma_lex_lt_neq, lemma_lex_lt_trans, lex_compare, lex_lt, read_be_u32,
    read_be_u64, ByteCmp,
};
use crate::chunk::fanout;
use crate::chunk::pack_names;
use crate::chunk::pack_names::{all_ascii, strictly_increasing, split_names, taken_names, Split};
use crate::chunk::table::{
    chunk_table_of, toc_empty_size, toc_from_bytes, toc_offset_by_id, TocError, FANOUT_ID,
    LARGE_OFFSETS_ID, LOOKUP_ID, OFFSETS_ID, PACK_NAMES_ID,
};
use crate::hash::{HashKind, ObjectId};

verus! {

/// Known multi-pack index file versions.
#[derive(Clone, Copy, Debug, PartialEq, Eq, Structural)]
pub enum Version {
    V1,
}

impl Default for Version {
    fn default() -> (r: Self)
        ensures
            r is V1,
    {
        Version::V1
    }
}

/// Why a multi-pack index file was rejected.
#[derive(Debug)]
pub enum Error {
    Corrupt { message: String },
    UnsupportedVersion { version: u8 },
    UnsupportedHashKind { kind: u8 },
    ChunkFileDecode { source: TocError },
    MissingChunk { id: u32 },
    MultiPackFanSize,
    PackNames { err: pack_names::Error },
}

/// The file starts with the four magic bytes "MIDX".
pub open spec fn signature_ok(d: Seq<u8>) -> bool {
    d.len() >= 4 && d[0] == 0x4d && d[1] == 0x49 && d[2] == 0x44 && d[3] == 0x58
}

/// Header, one table-of-contents sentinel entry and trailer hash must fit.
pub open spec fn min_len_ok(d: Seq<u8>) -> bool {
    d.len() >= 44
}

/// The fixed-size header is sound: long enough, signed, and of the one
/// supported version and hash kind.
pub open spec fn header_ok(d: Seq<u8>) -> bool {
    min_len_ok(d) && signature_ok(d) && d[4] == 1 && d[5] == 1
}

/// The chunk table of contents of the file, parsed from just after the
/// header with as many entries as the header announces.
pub open spec fn toc_of(d: Seq<u8>) -> Option<Map<u32, (int, int)>> {
    chunk_table_of(d, 12, d[6] as int)
}

/// The pack count announced by the header.
pub open spec fn pack_count_of(d: Seq<u8>) -> int {
    be_u32_at(d, 8)
}

/// The byte range of chunk `kind`.
pub open spec fn chunk_extent(d: Seq<u8>, kind: u32) -> (int, int)
    recommends
        toc_of(d) is Some,
{
    toc_of(d).unwrap()[kind]
}

/// The result of splitting the pack-names chunk.
pub open spec fn names_split_of(d: Seq<u8>) -> Split {
    let (s, e) = chunk_extent(d, PACK_NAMES_ID);
    split_names(d.subrange(s, e), pack_count_of(d))
}

/// The names the pack-name scan examines, in order: a host-encoding
/// rejection can name only one of these.
pub open spec fn names_scanned_of(d: Seq<u8>) -> Seq<Seq<u8>> {
    let (s, e) = chunk_extent(d, PACK_NAMES_ID);
    taken_names(d.subrange(s, e), pack_count_of(d))
}

/// The byte length of the fanout chunk.
pub open spec fn fan_len_of(d: Seq<u8>) -> int {
    chunk_extent(d, FANOUT_ID).1 - chunk_extent(d, FANOUT_ID).0
}

/// The total object count: the last fanout entry.
pub open spec fn num_objects_of(d: Seq<u8>) -> int {
    be_u32_at(d, chunk_extent(d, FANOUT_ID).0 + 1020)
}

/// The header parsed and the table of contents was accepted.
pub open spec fn toc_passed(d: Seq<u8>) -> bool {
    header_ok(d) && toc_of(d) is Some
}

/// ... and the pack-names chunk is present and splits into ordered names.
pub open spec fn names_passed(d: Seq<u8>) -> bool {
    toc_passed(d) && toc_of(d).unwrap().dom().contains(PACK_NAMES_ID) && names_split_of(d)
        is Names
}

/// ... and the fanout chunk is present with its exact size.
pub open spec fn fanout_passed(d: Seq<u8>) -> bool {
    names_passed(d) && toc_of(d).unwrap().dom().contains(FANOUT_ID) && fan_len_of(d) == 1024
}

/// ... and the lookup and offset chunks are present.
pub open spec fn tables_present(d: Seq<u8>) -> bool {
    fanout_passed(d) && toc_of(d).unwrap().dom().contains(LOOKUP_ID)
        && toc_of(d).unwrap().dom().contains(OFFSETS_ID)
}

/// Everything `from_bytes` validates, apart from the host-encoding check
/// on pack names: files satisfying this are accepted on hosts whose path
/// encoding takes every name.
pub open spec fn accepts(d: Seq<u8>) -> bool {
    &&& tables_present(d)
    &&& chunk_extent(d, LOOKUP_ID).1 - chunk_extent(d, LOOKUP_ID).0 == 20 * num_objects_of(d)
    &&& chunk_extent(d, OFFSETS_ID).1 - chunk_extent(d, OFFSETS_ID).0 == 8 * num_objects_of(d)
}

/// Which condition each error reports: every rejection names the first
/// validation stage that failed on the file.
pub open spec fn rejected_with(d: Seq<u8>, e: Error) -> bool {
    match e {
        Error::Corrupt { .. } => !min_len_ok(d) || (min_len_ok(d) && !signature_ok(d)) || (
        tables_present(d) && !accepts(d)),
        Error::UnsupportedVersion { version } => min_len_ok(d) && signature_ok(d) && version
            == d[4] && d[4] != 1,
        Error::UnsupportedHashKind { kind } => min_len_ok(d) && signature_ok(d) && d[4] == 1
            && kind == d[5] && d[5] != 1,
        Error::ChunkFileDecode { .. } => header_ok(d) && toc_of(d) is None,
        Error::MissingChunk { id } => {
            ||| (toc_passed(d) && id == PACK_NAMES_ID && !toc_of(d).unwrap().dom().contains(
                PACK_NAMES_ID,
            ))
            ||| (names_passed(d) && id == FANOUT_ID && !toc_of(d).unwrap().dom().contains(
                FANOUT_ID,
            ))
            ||| (fanout_passed(d) && id == LOOKUP_ID && !toc_of(d).unwrap().dom().contains(
                LOOKUP_ID,
            ))
            ||| (fanout_passed(d) && toc_of(d).unwrap().dom().contains(LOOKUP_ID) && id
                == OFFSETS_ID && !toc_of(d).unwrap().dom().contains(OFFSETS_ID))
        },
        Error::MultiPackFanSize => names_passed(d) && toc_of(d).unwrap().dom().contains(FANOUT_ID)
            && fan_len_of(d) != 1024,
        Error::PackNames { err } => toc_passed(d) && toc_of(d).unwrap().dom().contains(
            PACK_NAMES_ID,
        ) && match err {
            pack_names::Error::MissingNullByte => names_split_of(d) is MissingNull,
            pack_names::Error::NotOrderedAlphabetically => names_split_of(d) is Unordered,
            pack_names::Error::PathEncoding { path } => pack_count_of(d) > 0 && names_scanned_of(
                d,
            ).contains(path@) && !all_ascii(path@),
        },
    }
}

/// True when `r` reports a host-path-encoding failure, the one rejection
/// that depends on the host rather than on the file bytes.
pub open spec fn is_encoding_rejection(r: Result<File, Error>) -> bool {
    match r {
        Err(Error::PackNames { err: pack_names::Error::PathEncoding { .. } }) => true,
        _ => false,
    }
}

/// An index file for multiple packs at the same time, typically stored in
/// a file named 'multi-pack-index'. The backing bytes are owned whole;
/// the lookup, offset and large-offset tables are windows into them,
/// described by validated start and end positions.
#[derive(Debug)]
pub struct File {
    data: Vec<u8>,
    version: Version,
    hash_kind: HashKind,
    num_chunks: u8,
    num_packs: u32,
    fan: Vec<u32>,
    num_objects: u32,
    pack_names: Vec<Vec<u8>>,
    lookup_start: usize,
    lookup_end: usize,
    offsets_start: usize,
    offsets_end: usize,
    large: Option<(usize, usize)>,
}

impl File {
    /// Structural well-formedness: every table window lies within the
    /// backing bytes and holds exactly one entry per object.
    pub closed spec fn wf(self) -> bool {
        &&& self.fan@.len() == 256
        &&& self.num_objects == self.fan@[255]
        &&& self.pack_names@.len() == self.num_packs as int
        &&& strictly_increasing(self.pack_names.deep_view())
        &&& self.lookup_start <= self.lookup_end <= self.data@.len()
        &&& self.lookup_end - self.lookup_start == 20 * (self.num_objects as int)
        &&& self.offsets_start <= self.offsets_end <= self.data@.len()
        &&& self.offsets_end - self.offsets_start == 8 * (self.num_objects as int)
        &&& match self.large {
            Some((s, c)) => s + 8 * (c as int) <= self.data@.len(),
            None => true,
        }
    }

    /// The backing bytes.
    pub closed spec fn bytes(self) -> Seq<u8> {
        self.data@
    }

    /// Total number of objects in the index.
    pub closed spec fn object_count(self) -> int {
        self.num_objects as int
    }

    /// Number of constituent pack files.
    pub closed spec fn pack_count(self) -> int {
        self.num_packs as int
    }

    /// The pack names, as byte strings.
    pub closed spec fn names(self) -> Seq<Seq<u8>> {
        self.pack_names.deep_view()
    }

    /// The fanout table.
    pub closed spec fn fan_at(self, b: int) -> int {
        self.fan@[b] as int
    }

    /// The id stored at position `i` of the lookup table.
    pub closed spec fn entry_id(self, i: int) -> Seq<u8> {
        self.data@.subrange(self.lookup_start + 20 * i, self.lookup_start + 20 * i + 20)
    }

    /// The pack that owns the object at position `i`.
    pub closed spec fn entry_pack(self, i: int) -> int {
        be_u32_at(self.data@, self.offsets_start + 8 * i)
    }

    /// The raw offset word of the object at position `i`; its top bit
    /// flags indirection through the large-offset table.
    pub closed spec fn entry_ofs_word(self, i: int) -> int {
        be_u32_at(self.data@, self.offsets_start + 8 * i + 4)
    }

    /// Number of entries of the large-offset table.
    pub closed spec fn large_count(self) -> int {
        match self.large {
            Some((_, c)) => c as int,
            None => 0,
        }
    }

    /// The large offset stored at position `j`.
    pub closed spec fn large_at(self, j: int) -> int {
        match self.large {
            Some((s, _)) => be_u64_at(self.data@, s + 8 * j),
            None => 0,
        }
    }

    /// The byte offset the entry at position `i` resolves to: the offset
    /// word itself when its top bit is clear, the named large offset when
    /// set, and nothing when the reference leaves the large-offset table.
    pub closed spec fn resolved_offset(self, i: int) -> Option<int> {
        let w = self.entry_ofs_word(i);
        if w < 0x8000_0000 {
            Some(w)
        } else if w - 0x8000_0000 < self.large_count() {
            Some(self.large_at(w - 0x8000_0000))
        } else {
            None
        }
    }

    /// Some lookup-table entry holds exactly `id`.
    pub closed spec fn contains_id(self, id: Seq<u8>) -> bool {
        exists|i: int| 0 <= i < self.object_count() && self.entry_id(i) == id
    }

    /// The lookup table is strictly ascending, as a valid file guarantees.
    pub closed spec fn table_sorted(self) -> bool {
        forall|i: int, j: int|
            0 <= i < j < self.object_count() ==> lex_lt(
                #[trigger] self.entry_id(i),
                #[trigger] self.entry_id(j),
            )
    }

    /// The fanout table is consistent with the lookup table: position `i`
    /// lies below `fan[b]` exactly when its id's first byte is at most `b`.
    pub closed spec fn fanout_ok(self) -> bool {
        &&& forall|b: int| 0 <= b < 256 ==> #[trigger] self.fan_at(b) <= self.object_count()
        &&& forall|i: int, b: int|
            0 <= i < self.object_count() && 0 <= b < 256 ==> (i < #[trigger] self.fan_at(b) <==> (
            #[trigger] self.entry_id(i))[0] <= b)
    }

    /// Every pack-index entry points into the pack-name table.
    pub closed spec fn packs_in_range(self) -> bool {
        forall|i: int|
            0 <= i < self.object_count() ==> #[trigger] self.entry_pack(i) < self.pack_count()
    }

    /// How an accepted `File` reflects the file bytes it was parsed from.
    pub closed spec fn parsed_from(self, d: Seq<u8>) -> bool {
        let m = toc_of(d).unwrap();
        &&& self.data@ == d
        &&& self.version is V1
        &&& self.hash_kind is Sha1
        &&& self.num_chunks == d[6]
        &&& self.num_packs as int == pack_count_of(d)
        &&& self.fan@.len() == 256
        &&& forall|i: int|
            0 <= i < 256 ==> self.fan@[i] == be_u32_at(d, chunk_extent(d, FANOUT_ID).0 + 4 * i)
        &&& self.num_objects as int == num_objects_of(d)
        &&& Split::Names(self.pack_names.deep_view()) == names_split_of(d)
        &&& (self.lookup_start as int, self.lookup_end as int) == chunk_extent(d, LOOKUP_ID)
        &&& (self.offsets_start as int, self.offsets_end as int) == chunk_extent(d, OFFSETS_ID)
        &&& (m.dom().contains(LARGE_OFFSETS_ID) <==> self.large is Some)
        &&& match self.large {
            Some((s, c)) => s as int == chunk_extent(d, LARGE_OFFSETS_ID).0 && c as int == (
            chunk_extent(d, LARGE_OFFSETS_ID).1 - chunk_extent(d, LARGE_OFFSETS_ID).0) / 8,
            None => true,
        }
    }

    /// Pure accessor: the number of packs.
    pub fn num_packs(&self) -> (r: u32)
        ensures
            r as int == self.pack_count(),
    {
        self.num_packs
    }

    /// Pure accessor: the hash kind of the indexed object ids.
    pub fn hash_kind(&self) -> (r: HashKind)
        ensures
            r is Sha1,
    {
        self.hash_kind
    }

    /// Pure accessor: the total object count.
    pub fn num_objects(&self) -> (r: u32)
        ensures
            r as int == self.object_count(),
    {
        self.num_objects
    }

    /// The name of pack `i`, as stored in the pack-names chunk.
    pub fn pack_name(&self, i: usize) -> (r: Option<&Vec<u8>>)
        requires
            self.wf(),
        ensures
            match r {
                Some(name) => i < self.pack_count() && name@ == self.names()[i as int],
                None => i >= self.pack_count(),
            },
    {
        if i < self.pack_names.len() {
            let name = &self.pack_names[i];
            proof {
                assert(name@ =~= self.names()[i as int]);
            }
            Some(name)
        } else {
            None
        }
    }

    /// Opens a multi-pack index from its file bytes, validating the
    /// header, the chunk table of contents and every required chunk.
    pub fn from_bytes(data: Vec<u8>) -> (r: Result<File, Error>)
        ensures
            r matches Ok(f) ==> f.wf() && accepts(data@) && f.parsed_from(data@),
            r matches Err(e) ==> rejected_with(data@, e),
            accepts(data@) ==> r is Ok || is_encoding_rejection(r),
            accepts(data@) && pack_count_of(data@) == 0 ==> r is Ok,
    {
        let min_toc = toc_empty_size();
        if data.len() < 12 + min_toc + 20 {
            return Err(
                Error::Corrupt {
                    message: String::from_str("multi-index file is truncated and too short"),
                },
            );
        }
        let d = data.as_slice();
        if !(d[0] == 0x4d && d[1] == 0x49 && d[2] == 0x44 && d[3] == 0x58) {
            return Err(Error::Corrupt { message: String::from_str("invalid signature") });
        }
        let version_byte = d[4];
        if version_byte != 1 {
            return Err(Error::UnsupportedVersion { version: version_byte });
        }
        let hash_byte = d[5];
        if hash_byte != 1 {
            return Err(Error::UnsupportedHashKind { kind: hash_byte });
        }
        let num_chunks = d[6];
        let num_packs = read_be_u32(d, 8);
        let toc = match toc_from_bytes(d, 12, num_chunks as u32) {
            Ok(t) => t,
            Err(err) => {
                return Err(Error::ChunkFileDecode { source: err });
            },
        };
        let (pn_s, pn_e) = match toc_offset_by_id(&toc, PACK_NAMES_ID) {
            Some(r) => r,
            None => {
                return Err(Error::MissingChunk { id: PACK_NAMES_ID });
            },
        };
        let names = match pack_names::from_slice(&d[pn_s..pn_e], num_packs) {
            Ok(n) => n,
            Err(err) => {
                return Err(Error::PackNames { err });
            },
        };
        let (f_s, f_e) = match toc_offset_by_id(&toc, FANOUT_ID) {
            Some(r) => r,
            None => {
                return Err(Error::MissingChunk { id: FANOUT_ID });
            },
        };
        let fan = match fanout::from_slice(&d[f_s..f_e]) {
            Some(f) => f,
            None => {
                return Err(Error::MultiPackFanSize);
            },
        };
        let num_objects = fan[255];
        proof {
            assert(fan@[255] == be_u32_at(data@.subrange(f_s as int, f_e as int), 1020));
            assert(fan@[255] == num_objects_of(data@));
        }
        let (lk_s, lk_e) = match toc_offset_by_id(&toc, LOOKUP_ID) {
            Some(r) => r,
            None => {
                return Err(Error::MissingChunk { id: LOOKUP_ID });
            },
        };
        let (of_s, of_e) = match toc_offset_by_id(&toc, OFFSETS_ID) {
            Some(r) => r,
            None => {
                return Err(Error::MissingChunk { id: OFFSETS_ID });
            },
        };
        if (lk_e - lk_s) as u64 != 20u64 * (num_objects as u64) {
            return Err(
                Error::Corrupt {
                    message: String::from_str("object id lookup table disagrees with the fanout"),
                },
            );
        }
        if (of_e - of_s) as u64 != 8u64 * (num_objects as u64) {
            return Err(
                Error::Corrupt {
                    message: String::from_str("object offset table disagrees with the fanout"),
                },
            );
        }
        let large = match toc_offset_by_id(&toc, LARGE_OFFSETS_ID) {
            Some((ls, le)) => {
                proof {
                    assert(8 * (((le - ls) as int) / 8) <= le - ls) by (nonlinear_arith);
                }
                Some((ls, (le - ls) / 8))
            },
            None => None,
        };
        Ok(
            File {
                data,
                version: Version::V1,
                hash_kind: HashKind::Sha1,
                num_chunks,
                num_packs,
                fan,
                num_objects,
                pack_names: names,
                lookup_start: lk_s,
                lookup_end: lk_e,
                offsets_start: of_s,
                offsets_end: of_e,
                large,
            },
        )
    }
    /// Looks up which pack holds `id` and at which byte offset, by
    /// narrowing to the id's fanout bucket and binary-searching it.
    ///
    /// For an id present in the table the result names its entry exactly,
    /// with a pack index inside the pack-name table whenever the file's
    /// pack entries are in range; for an absent id the result is `None`
    /// whenever the file obeys its own ordering and fanout invariants; and
    /// the lone error is an offset word that points outside the
    /// large-offset table.
    pub fn find(&self, id: &ObjectId) -> (r: Result<Option<(u32, u64)>, Error>)
        requires
            self.wf(),
            id.wf(),
        ensures
            r matches Ok(Some((p, o))) ==> {
                &&& exists|i: int|
                    0 <= i < self.object_count() && #[trigger] self.entry_id(i) == id@ && p
                        == self.entry_pack(i) && Some(o as int) == self.resolved_offset(i)
                &&& self.packs_in_range() ==> p < self.pack_count()
            },
            r matches Ok(None) ==> ((self.table_sorted() && self.fanout_ok())
                ==> !self.contains_id(id@)),
            r matches Err(e) ==> (exists|i: int|
                0 <= i < self.object_count() && #[trigger] self.entry_id(i) == id@
                    && self.resolved_offset(i) is None) && e matches Error::Corrupt { .. },
    {
        let b = id.first_byte();
        let dlen = self.data.len();
        let n: usize = self.num_objects as usize;
        let bucket_end = self.fan[b as usize] as usize;
        let mut hi: usize = if bucket_end > n {
            n
        } else {
            bucket_end
        };
        let mut lo: usize = 0;
        if b > 0 {
            let bucket_start = self.fan[(b - 1) as usize] as usize;
            lo = if bucket_start > hi {
                hi
            } else {
                bucket_start
            };
        }
        proof {
            if self.table_sorted() && self.fanout_ok() && self.contains_id(id@) {
                let i = choose|i: int|
                    0 <= i < self.object_count() && #[trigger] self.entry_id(i) == id@;
                assert(self.entry_id(i)[0] == id@[0]);
                assert(i < self.fan_at(b as int));
                if b > 0 {
                    assert(!(self.entry_id(i)[0] <= b - 1));
                    assert(!(i < self.fan_at(b - 1)));
                }
                assert(lo <= i < hi && self.entry_id(i) == id@);
            }
        }
        while lo < hi
            invariant
                self.wf(),
                id.wf(),
                lo <= hi <= n,
                n == self.object_count(),
                dlen == self.data@.len(),
                (self.table_sorted() && self.fanout_ok() && self.contains_id(id@)) ==> exists|
                    i: int,
                |
                    lo <= i < hi && #[trigger] self.entry_id(i) == id@,
            decreases hi - lo,
        {
            let mid = lo + (hi - lo) / 2;
            let start = self.lookup_start + 20 * mid;
            let entry = &self.data.as_slice()[start..start + 20];
            proof {
                assert(entry@ =~= self.entry_id(mid as int));
            }
            match lex_compare(entry, id.as_bytes()) {
                ByteCmp::Equal => {
                    let pack = read_be_u32(self.data.as_slice(), self.offsets_start + 8 * mid);
                    let word = read_be_u32(
                        self.data.as_slice(),
                        self.offsets_start + 8 * mid + 4,
                    );
                    if word < 0x8000_0000 {
                        proof {
                            let i = mid as int;
                            assert(self.entry_id(i) == id@ && pack == self.entry_pack(i) && Some(
                                (word as u64) as int,
                            ) == self.resolved_offset(i));
                            if self.packs_in_range() {
                                assert(self.entry_pack(i) < self.pack_count());
                            }
                        }
                        return Ok(Some((pack, word as u64)));
                    }
                    let li = (word - 0x8000_0000) as usize;
                    match self.large {
                        Some((ls, lc)) => {
                            if li < lc {
                                let off = read_be_u64(self.data.as_slice(), ls + 8 * li);
                                proof {
                                    let i = mid as int;
                                    assert(self.entry_id(i) == id@ && pack == self.entry_pack(i)
                                        && Some(off as int) == self.resolved_offset(i));
                                    if self.packs_in_range() {
                                        assert(self.entry_pack(i) < self.pack_count());
                                    }
                                }
                                return Ok(Some((pack, off)));
                            } else {
                                return Err(
                                    Error::Corrupt {
                                        message: String::from_str(
                                            "offset points past the large offset table",
                                        ),
                                    },
                                );
                            }
                        },
                        None => {
                            return Err(
                                Error::Corrupt {
                                    message: String::from_str(
                                        "large offset table is missing although an offset needs it",
                                    ),
                                },
                            );
                        },
                    }
                },
                ByteCmp::Less => {
                    proof {
                        if self.table_sorted() && self.fanout_ok() && self.contains_id(id@) {
                            let i = choose|i: int|
                                lo <= i < hi && #[trigger] self.entry_id(i) == id@;
                            if i <= mid {
                                if i < mid {
                                    assert(lex_lt(self.entry_id(i), self.entry_id(mid as int)));
                                    lemma_lex_lt_trans(
                                        self.entry_id(i),
                                        self.entry_id(mid as int),
                                        id@,
                                    );
                                }
                                lemma_lex_lt_neq(self.entry_id(i), id@);
                            }
                            assert(mid + 1 <= i < hi && self.entry_id(i) == id@);
                        }
                    }
                    lo = mid + 1;
                },
                ByteCmp::Greater => {
                    proof {
                        if self.table_sorted() && self.fanout_ok() && self.contains_id(id@) {
                            let i = choose|i: int|
                                lo <= i < hi && #[trigger] self.entry_id(i) == id@;
                            if i >= mid {
                                if i > mid {
                                    assert(lex_lt(self.entry_id(mid as int), self.entry_id(i)));
                                    lemma_lex_lt_trans(
                                        id@,
                                        self.entry_id(mid as int),
                                        self.entry_id(i),
                                    );
                                }
                                lemma_lex_lt_neq(id@, self.entry_id(i));
                            }
                            assert(lo <= i < mid && self.entry_id(i) == id@);
                        }
                    }
                    hi = mid;
                },
            }
        }
        Ok(None)
    }
}

/// A non-decreasing fanout prefix bounds later entries by earlier ones.
proof fn lemma_fan_mono(f: File, a: int, b: int)
    requires
        f.wf(),
        forall|k: int| 1 <= k < 256 ==> #[trigger] f.fan_at(k - 1) <= f.fan_at(k),
        0 <= a <= b < 256,
    ensures
        f.fan_at(a) <= f.fan_at(b),
    decreases b - a,
{
    if a < b {
        lemma_fan_mono(f, a, b - 1);
        assert(f.fan_at(b - 1) <= f.fan_at(b));
    }
}

/// A lookup table whose adjacent entries ascend is ascending throughout.
proof fn lemma_entry_chain(f: File, i: int, j: int)
    requires
        f.wf(),
        forall|k: int|
            0 <= k && k + 1 < f.object_count() ==> lex_lt(
                #[trigger] f.entry_id(k),
                f.entry_id(k + 1),
            ),
        0 <= i < j < f.object_count(),
    ensures
        lex_lt(f.entry_id(i), f.entry_id(j)),
    decreases j - i,
{
    if j == i + 1 {
        assert(lex_lt(f.entry_id(i), f.entry_id(i + 1)));
    } else {
        lemma_entry_chain(f, i, j - 1);
        assert(lex_lt(f.entry_id(j - 1), f.entry_id(j)));
        lemma_lex_lt_trans(f.entry_id(i), f.entry_id(j - 1), f.entry_id(j));
    }
}

impl File {
    /// An explicit validation pass over the lookup and fanout tables, for
    /// callers that do not trust the file: true exactly when the lookup
    /// table is strictly ascending and every fanout bucket agrees with
    /// it. `from_bytes` deliberately skips this O(n) scan; after it has
    /// returned true once, `find` is guaranteed to answer "not found"
    /// only for ids the index really lacks.
    pub fn validate_tables(&self) -> (r: bool)
        requires
            self.wf(),
        ensures
            r <==> (self.table_sorted() && self.fanout_ok()),
    {
        let n: usize = self.num_objects as usize;
        let mut b: usize = 0;
        while b < 256
            invariant
                self.wf(),
                b <= 256,
                n == self.object_count(),
                forall|k: int| 0 <= k < b ==> #[trigger] self.fan_at(k) <= n,
                forall|k: int| 1 <= k < b ==> #[trigger] self.fan_at(k - 1) <= self.fan_at(k),
            decreases 256 - b,
        {
            let v = self.fan[b];
            if v as usize > n {
                proof {
                    assert(self.fan_at(b as int) > self.object_count());
                }
                return false;
            }
            if b > 0 && self.fan[b - 1] > v {
                proof {
                    if self.fanout_ok() {
                        // Some position separates the two buckets and
                        // would have to sit in both.
                        let i = self.fan_at(b as int);
                        assert(self.fan_at(b - 1) <= self.object_count());
                        assert(i < self.fan_at(b - 1));
                        assert(i < self.object_count());
                        assert(self.entry_id(i)[0] <= b - 1);
                        assert(self.entry_id(i)[0] <= b as int);
                        assert(i < self.fan_at(b as int));
                    }
                }
                return false;
            }
            b += 1;
        }
        let mut i: usize = 0;
        while i < n
            invariant
                self.wf(),
                i <= n,
                n == self.object_count(),
                forall|k: int| 0 <= k < 256 ==> #[trigger] self.fan_at(k) <= n,
                forall|k: int| 1 <= k < 256 ==> #[trigger] self.fan_at(k - 1) <= self.fan_at(k),
                forall|k: int|
                    0 <= k < i ==> {
                        let fb = (#[trigger] self.entry_id(k))[0] as int;
                        k < self.fan_at(fb) && (fb > 0 ==> k >= self.fan_at(fb - 1))
                    },
            decreases n - i,
        {
            let fb = self.data.as_slice()[self.lookup_start + 20 * i];
            proof {
                assert(self.entry_id(i as int)[0] == self.data@[self.lookup_start + 20 * i]);
            }
            if i >= self.fan[fb as usize] as usize {
                proof {
                    assert(!(i < self.fan_at(fb as int)));
                }
                return false;
            }
            if fb > 0 && i < self.fan[(fb - 1) as usize] as usize {
                proof {
                    if self.fanout_ok() {
                        assert(i < self.fan_at(fb as int - 1));
                        assert(self.entry_id(i as int)[0] <= fb as int - 1);
                    }
                }
                return false;
            }
            i += 1;
        }
        let mut j: usize = 1;
        while j < n
            invariant
                self.wf(),
                1 <= j,
                j <= n || n == 0,
                n == self.object_count(),
                forall|k: int|
                    0 <= k && k + 1 < j ==> lex_lt(#[trigger] self.entry_id(k), self.entry_id(k + 1)),
            decreases n - j,
        {
            let prev_start = self.lookup_start + 20 * (j - 1);
            let cur_start = self.lookup_start + 20 * j;
            let prev = &self.data.as_slice()[prev_start..prev_start + 20];
            let cur = &self.data.as_slice()[cur_start..cur_start + 20];
            proof {
                assert(prev@ =~= self.entry_id(j - 1));
                assert(cur@ =~= self.entry_id(j as int));
            }
            match lex_compare(prev, cur) {
                ByteCmp::Less => {},
                ByteCmp::Equal => {
                    proof {
                        if self.table_sorted() {
                            assert(lex_lt(self.entry_id(j - 1), self.entry_id(j as int)));
                            lemma_lex_lt_neq(self.entry_id(j - 1), self.entry_id(j as int));
                        }
                    }
                    return false;
                },
                ByteCmp::Greater => {
                    proof {
                        if self.table_sorted() {
                            assert(lex_lt(self.entry_id(j - 1), self.entry_id(j as int)));
                            lemma_lex_lt_trans(
                                self.entry_id(j - 1),
                                self.entry_id(j as int),
                                self.entry_id(j - 1),
                            );
                            lemma_lex_lt_neq(self.entry_id(j - 1), self.entry_id(j - 1));
                        }
                    }
                    return false;
                },
            }
            j += 1;
        }
        proof {
            assert forall|i2: int, j2: int|
                0 <= i2 < j2 < self.object_count() implies lex_lt(
                #[trigger] self.entry_id(i2),
                #[trigger] self.entry_id(j2),
            ) by {
                lemma_entry_chain(*self, i2, j2);
            }
            assert forall|i2: int, bb: int|
                0 <= i2 < self.object_count() && 0 <= bb < 256 implies (i2 < #[trigger] self.fan_at(
                bb,
            ) <==> (#[trigger] self.entry_id(i2))[0] <= bb) by {
                let fb = self.entry_id(i2)[0] as int;
                if fb <= bb {
                    lemma_fan_mono(*self, fb, bb);
                } else {
                    lemma_fan_mono(*self, bb, fb - 1);
                }
            }
        }
        true
    }
}

/// Bridges the opaque observers of an accepted `File` to the open
/// by-byte model, so callers outside this module can use what
/// `from_bytes` promised: the backing bytes, the header-derived counts,
/// the split pack names and their ordering, and the fanout entries.
pub proof fn lemma_parsed_from_observers(f: File, d: Seq<u8>)
    requires
        f.wf(),
        f.parsed_from(d),
    ensures
        f.bytes() == d,
        f.pack_count() == pack_count_of(d),
        f.object_count() == num_objects_of(d),
        Split::Names(f.names()) == names_split_of(d),
        strictly_increasing(f.names()),
        f.names().len() == f.pack_count(),
        forall|b: int|
            0 <= b < 256 ==> #[trigger] f.fan_at(b) == be_u32_at(
                d,
                chunk_extent(d, FANOUT_ID).0 + 4 * b,
            ),
{
}

/// An entry of the lookup table witnesses containment of its id.
pub proof fn lemma_entry_in_table(f: File, i: int)
    requires
        f.wf(),
        0 <= i < f.object_count(),
    ensures
        f.contains_id(f.entry_id(i)),
{
}

/// Law: in a sorted lookup table an id occurs at most once, so a lookup
/// that names some entry holding the id names the one recorded position,
/// and with it the recorded pack and offset.
pub proof fn lemma_entry_unique(f: File, i: int, j: int)
    requires
        f.wf(),
        f.table_sorted(),
        0 <= i < f.object_count(),
        0 <= j < f.object_count(),
        f.entry_id(i) == f.entry_id(j),
    ensures
        i == j,
{
    if i < j {
        lemma_lex_lt_neq(f.entry_id(i), f.entry_id(j));
    }
    if j < i {
        lemma_lex_lt_neq(f.entry_id(j), f.entry_id(i));
    }
}

/// Law: in a well-formed index the fanout's final entry, the length of
/// the lookup table, the length of the offset table and the length of the
/// pack-index table all agree with the object count.
pub proof fn lemma_table_lengths_agree(f: File)
    requires
        f.wf(),
    ensures
        f.fan_at(255) == f.object_count(),
        f.lookup_table_len() == f.object_count(),
        f.offset_table_len() == f.object_count(),
        f.pack_index_table_len() == f.object_count(),
{
}

impl File {
    /// Number of ids the lookup-table window holds.
    pub closed spec fn lookup_table_len(self) -> int {
        (self.lookup_end - self.lookup_start) / 20
    }

    /// Number of entries the offset-table window holds.
    pub closed spec fn offset_table_len(self) -> int {
        (self.offsets_end - self.offsets_start) / 8
    }

    /// Number of entries of the pack-index table, which shares its slots
    /// with the offset table.
    pub closed spec fn pack_index_table_len(self) -> int {
        (self.offsets_end - self.offsets_start) / 8
    }
}

} // verus!
