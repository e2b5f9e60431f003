//! Segment Directory (page 1 of every `.ovn2` file): a catalog mapping each
//! segment type to its page range.
//!
//! ```text
//! 0x0000  4     magic 'SDIR' (0x5344_4952)
//! 0x0004  2     entry count
//! 0x0006  2     reserved
//! 0x0008  N*32  entries
//! min(0xFF00, page_size - 16)  4  CRC-32C of all bytes before it
//!
//! entry (32 bytes): type code, flags, 2 reserved, start page (8),
//! end page (8), entry count (8), 4 reserved
//! ```

use std::collections::HashMap;

use vstd::prelude::*;
use vstd::slice::slice_subrange;
use vstd::std_specs::hash::spec_hash_map_iter;
use vstd::std_specs::iter::IteratorSpec;

use crate::codec::{
    copy_range, crc32c, crc32c_of, le_u16, le_u32, le_u64, lemma_u16_at, lemma_u32_at, lemma_u64_at,
    push_slice, push_u16, push_u32, push_u64, push_zeros, read_u16, read_u32, read_u64,
    slice_to_array, u16_at, u32_at, u64_at, zeros,
};
use crate::error::{OvnError, OvnResult};
use crate::format::{segment_code, segment_from_code, SegmentType};

verus! {

broadcast use vstd::std_specs::hash::group_hash_axioms;

/// Magic number of the Segment Directory page: 'SDIR'.
pub const SEGMENT_DIR_MAGIC: u32 = 0x5344_4952;

/// Size of one serialized entry in bytes.
pub const ENTRY_SIZE: usize = 32;

/// Offset of the directory CRC for pages of 64 KiB and more.
pub const DIR_CRC_OFFSET: usize = 0xFF00;

/// Entry flag: segment is active.
pub const ENTRY_FLAG_ACTIVE: u8 = 1;
/// Entry flag: segment is compressed.
pub const ENTRY_FLAG_COMPRESSED: u8 = 2;
/// Entry flag: segment is encrypted.
pub const ENTRY_FLAG_ENCRYPTED: u8 = 4;

/// One entry of the Segment Directory.
#[derive(Debug, Clone, Copy, PartialEq, Eq)]
pub struct SegmentEntry {
    /// Which segment this entry describes.
    pub segment_type: SegmentType,
    /// Entry flags (ACTIVE, COMPRESSED, ENCRYPTED).
    pub flags: u8,
    /// First page of the segment.
    pub start_page: u64,
    /// Last page of the segment (inclusive); 0 when empty.
    pub end_page: u64,
    /// Logical record count.
    pub entry_count: u64,
}

/// Whether an entry has the ACTIVE flag.
pub open spec fn entry_active(e: SegmentEntry) -> bool {
    e.flags & ENTRY_FLAG_ACTIVE != 0
}

/// The 32 bytes an entry serializes to.
pub open spec fn entry_image(e: SegmentEntry) -> Seq<u8> {
    seq![segment_code(e.segment_type), e.flags, 0u8, 0u8] + le_u64(e.start_page) + le_u64(
        e.end_page,
    ) + le_u64(e.entry_count) + zeros(4)
}

/// The entry decoded from 32 bytes, if its type code is known.
pub open spec fn entry_parsed(s: Seq<u8>) -> Option<SegmentEntry> {
    match segment_from_code(s[0]) {
        Some(t) => Some(
            SegmentEntry {
                segment_type: t,
                flags: s[1],
                start_page: u64_at(s, 4),
                end_page: u64_at(s, 12),
                entry_count: u64_at(s, 20),
            },
        ),
        None => None,
    }
}

impl SegmentEntry {
    /// A new, empty, inactive entry for the given segment type.
    pub fn new(segment_type: SegmentType) -> (e: SegmentEntry)
        ensures
            e == (SegmentEntry { segment_type, flags: 0, start_page: 0, end_page: 0, entry_count: 0 }),
    {
        SegmentEntry { segment_type, flags: 0, start_page: 0, end_page: 0, entry_count: 0 }
    }

    /// Whether the segment is active.
    pub fn is_active(&self) -> (r: bool)
        ensures
            r == entry_active(*self),
    {
        self.flags & ENTRY_FLAG_ACTIVE != 0
    }

    /// Set the ACTIVE flag; nothing else changes.
    pub fn activate(&mut self)
        ensures
            *final(self) == (SegmentEntry { flags: old(self).flags | ENTRY_FLAG_ACTIVE, ..*old(self) }),
            entry_active(*final(self)),
    {
        let f = self.flags;
        assert((f | 1u8) & 1u8 != 0) by (bit_vector);
        self.flags = f | ENTRY_FLAG_ACTIVE;
    }

    /// Serialize to exactly 32 bytes.
    pub fn to_bytes(&self) -> (out: [u8; 32])
        ensures
            out@ == entry_image(*self),
    {
        let mut buf: Vec<u8> = Vec::new();
        buf.push(self.segment_type.code());
        buf.push(self.flags);
        buf.push(0u8);
        buf.push(0u8);
        push_u64(&mut buf, self.start_page);
        push_u64(&mut buf, self.end_page);
        push_u64(&mut buf, self.entry_count);
        push_zeros(&mut buf, 4);
        assert(buf@ =~= entry_image(*self));
        slice_to_array(buf.as_slice())
    }

    /// Deserialize from 32 bytes; `None` for an unknown type code.
    pub fn from_bytes(buf: &[u8; 32]) -> (r: Option<SegmentEntry>)
        ensures
            r == entry_parsed(buf@),
    {
        let s = buf.as_slice();
        let t = match SegmentType::from_byte(s[0]) {
            Some(t) => t,
            None => { return None; },
        };
        Some(
            SegmentEntry {
                segment_type: t,
                flags: s[1],
                start_page: read_u64(s, 4),
                end_page: read_u64(s, 12),
                entry_count: read_u64(s, 20),
            },
        )
    }
}

/// Decoding the bytes of an entry gives the entry back.
pub proof fn lemma_entry_roundtrip(e: SegmentEntry)
    ensures
        entry_image(e).len() == 32,
        entry_parsed(entry_image(e)) == Some(e),
{
    let s = entry_image(e);
    assert(s.subrange(4, 12) =~= le_u64(e.start_page));
    lemma_u64_at(s, 4, e.start_page);
    assert(s.subrange(12, 20) =~= le_u64(e.end_page));
    lemma_u64_at(s, 12, e.end_page);
    assert(s.subrange(20, 28) =~= le_u64(e.entry_count));
    lemma_u64_at(s, 20, e.entry_count);
    crate::format::lemma_segment_code_roundtrip(e.segment_type);
}

/// The Segment Directory: segment type code to entry.
pub struct SegmentDirectory {
    entries: HashMap<u8, SegmentEntry>,
}

impl View for SegmentDirectory {
    type V = Map<u8, SegmentEntry>;

    closed spec fn view(&self) -> Map<u8, SegmentEntry> {
        self.entries@
    }
}

/// `es` lists the active entries of `m`, in some order: each of its
/// elements is an active entry of `m`, and each active entry of `m` is one
/// of its elements.
pub open spec fn lists_active(es: Seq<SegmentEntry>, m: Map<u8, SegmentEntry>) -> bool {
    &&& forall|i: int|
        0 <= i < es.len() ==> entry_active(#[trigger] es[i]) && exists|k: u8|
            #[trigger] m.contains_key(k) && m[k] == es[i]
    &&& forall|k: u8| #[trigger] m.contains_key(k) && entry_active(m[k]) ==> es.contains(m[k])
}

/// The active entries of a sequence, in order.
pub open spec fn active_only(s: Seq<SegmentEntry>) -> Seq<SegmentEntry>
    decreases s.len(),
{
    if s.len() == 0 {
        Seq::empty()
    } else if entry_active(s.last()) {
        active_only(s.drop_last()).push(s.last())
    } else {
        active_only(s.drop_last())
    }
}

/// The concatenated images of a sequence of entries.
pub open spec fn entries_image(s: Seq<SegmentEntry>) -> Seq<u8>
    decreases s.len(),
{
    if s.len() == 0 {
        Seq::empty()
    } else {
        entries_image(s.drop_last()) + entry_image(s.last())
    }
}

/// Offset of the directory CRC in a page of `n` bytes.
pub open spec fn dir_crc_offset(n: int) -> int {
    if 0xFF00 <= n - 16 { 0xFF00 } else { n - 16 }
}

/// The directory page before its CRC is written.
pub open spec fn dir_body(es: Seq<SegmentEntry>, page_size: nat) -> Seq<u8> {
    le_u32(SEGMENT_DIR_MAGIC) + le_u16(es.len() as u16) + zeros(2) + entries_image(es) + zeros(
        (page_size - 8 - 32 * es.len()) as nat,
    )
}

/// The directory page: the body with the CRC-32C of everything before the
/// CRC offset written at that offset.
pub open spec fn dir_image(es: Seq<SegmentEntry>, page_size: nat) -> Seq<u8> {
    let body = dir_body(es, page_size);
    let off = dir_crc_offset(page_size as int);
    body.subrange(0, off) + le_u32(crc32c_of(body.subrange(0, off))) + body.subrange(
        off + 4,
        page_size as int,
    )
}

/// The entries decoded from the first `k` entry slots of a directory page.
pub open spec fn parsed_dir(s: Seq<u8>, k: nat) -> Map<u8, SegmentEntry>
    decreases k,
{
    if k == 0 {
        Map::empty()
    } else {
        let prev = parsed_dir(s, (k - 1) as nat);
        match entry_parsed(s.subrange(8 + 32 * (k - 1), 8 + 32 * (k as int))) {
            Some(e) => prev.insert(segment_code(e.segment_type), e),
            None => prev,
        }
    }
}

/// How `SegmentDirectory::from_bytes` answers a buffer `s`.
pub open spec fn dir_parse_outcome(s: Seq<u8>, r: OvnResult<SegmentDirectory>) -> bool {
    let off = dir_crc_offset(s.len() as int);
    let stored = u32_at(s, off);
    let count = u16_at(s, 4);
    if s.len() < 8 {
        r matches Err(OvnError::EncodingError(_))
    } else if stored != 0 && crc32c_of(s.subrange(0, off)) != stored {
        r matches Err(OvnError::ChecksumMismatch { expected, actual, .. }) && expected == stored
            && actual == crc32c_of(s.subrange(0, off))
    } else if u32_at(s, 0) != SEGMENT_DIR_MAGIC {
        r matches Err(OvnError::EncodingError(_))
    } else if 8 + 32 * count > s.len() {
        r matches Err(OvnError::IoError(_))
    } else {
        r matches Ok(d) && d@ == parsed_dir(s, count as nat)
    }
}

impl SegmentDirectory {
    /// Every key names the type of the entry stored under it.
    pub open spec fn keys_consistent(&self) -> bool {
        forall|k: u8| #[trigger] self@.contains_key(k) ==> segment_code(self@[k].segment_type) == k
    }

    /// A new, empty directory.
    pub fn new() -> (d: SegmentDirectory)
        ensures
            d@ == Map::<u8, SegmentEntry>::empty(),
            d.keys_consistent(),
    {
        SegmentDirectory { entries: HashMap::with_capacity(16) }
    }

    /// Insert or replace the entry of `entry`'s segment type.
    pub fn upsert(&mut self, entry: SegmentEntry)
        ensures
            final(self)@ == old(self)@.insert(segment_code(entry.segment_type), entry),
            old(self).keys_consistent() ==> final(self).keys_consistent(),
    {
        let k = entry.segment_type.code();
        self.entries.insert(k, entry);
    }

    /// An active, empty segment of type `t` placed at `page`.
    pub open spec fn spec_default_entry(t: SegmentType, page: u64) -> SegmentEntry {
        SegmentEntry { segment_type: t, flags: ENTRY_FLAG_ACTIVE, start_page: page, end_page: page, entry_count: 0 }
    }

    /// The directory of a freshly created database.
    pub open spec fn default_directory(first_free_page: u64) -> Map<u8, SegmentEntry> {
        Map::<u8, SegmentEntry>::empty().insert(
            0x01,
            SegmentEntry {
                segment_type: SegmentType::Header,
                flags: ENTRY_FLAG_ACTIVE,
                start_page: 0,
                end_page: 0,
                entry_count: 1,
            },
        ).insert(0x02, Self::spec_default_entry(SegmentType::Data, first_free_page)).insert(
            0x03,
            Self::spec_default_entry(SegmentType::Index, first_free_page),
        ).insert(0x04, Self::spec_default_entry(SegmentType::Wal, first_free_page)).insert(
            0x05,
            Self::spec_default_entry(SegmentType::Metadata, first_free_page),
        )
    }

    /// The directory of a freshly created database, holding the mandatory
    /// segments, all active: the Header segment at page 0 (one record), and
    /// the Data, Index, WAL and Metadata segments empty at `first_free_page`.
    pub fn with_defaults(first_free_page: u64) -> (d: SegmentDirectory)
        ensures
            d@ == Self::default_directory(first_free_page),
            d.keys_consistent(),
    {
        let mut dir = SegmentDirectory::new();
        dir.upsert(
            SegmentEntry {
                segment_type: SegmentType::Header,
                flags: ENTRY_FLAG_ACTIVE,
                start_page: 0,
                end_page: 0,
                entry_count: 1,
            },
        );
        dir.upsert(
            SegmentEntry {
                segment_type: SegmentType::Data,
                flags: ENTRY_FLAG_ACTIVE,
                start_page: first_free_page,
                end_page: first_free_page,
                entry_count: 0,
            },
        );
        dir.upsert(
            SegmentEntry {
                segment_type: SegmentType::Index,
                flags: ENTRY_FLAG_ACTIVE,
                start_page: first_free_page,
                end_page: first_free_page,
                entry_count: 0,
            },
        );
        dir.upsert(
            SegmentEntry {
                segment_type: SegmentType::Wal,
                flags: ENTRY_FLAG_ACTIVE,
                start_page: first_free_page,
                end_page: first_free_page,
                entry_count: 0,
            },
        );
        dir.upsert(
            SegmentEntry {
                segment_type: SegmentType::Metadata,
                flags: ENTRY_FLAG_ACTIVE,
                start_page: first_free_page,
                end_page: first_free_page,
                entry_count: 0,
            },
        );
        dir
    }

    /// Look up the entry of a segment type.
    pub fn get(&self, seg_type: SegmentType) -> (r: Option<&SegmentEntry>)
        ensures
            match r {
                Some(e) => self@.contains_key(segment_code(seg_type)) && *e == self@[segment_code(
                    seg_type,
                )],
                None => !self@.contains_key(segment_code(seg_type)),
            },
    {
        let k = seg_type.code();
        self.entries.get(&k)
    }

    /// Look up the entry of a segment type for modification. The key under
    /// which the entry is stored does not change, whatever is written to it.
    pub fn get_mut(&mut self, seg_type: SegmentType) -> (r: Option<&mut SegmentEntry>)
        ensures
            match r {
                Some(e) => {
                    &&& old(self)@.contains_key(segment_code(seg_type))
                    &&& *e == old(self)@[segment_code(seg_type)]
                    &&& final(self)@ == old(self)@.insert(segment_code(seg_type), *final(e))
                },
                None => {
                    &&& !old(self)@.contains_key(segment_code(seg_type))
                    &&& final(self)@ == old(self)@
                },
            },
    {
        let k = seg_type.code();
        match self.entries.entry(k) {
            std::collections::hash_map::Entry::Occupied(o) => Some(o.into_mut()),
            std::collections::hash_map::Entry::Vacant(_) => {
                assert(!old(self)@.contains_key(k));
                assert(old(self)@.remove(k) =~= old(self)@);
                None
            },
        }
    }

    /// Make sure an entry for `seg_type` exists (creating an empty one if
    /// missing) and return it for modification.
    pub fn ensure(&mut self, seg_type: SegmentType) -> (r: &mut SegmentEntry)
        ensures
            *r == (if old(self)@.contains_key(segment_code(seg_type)) {
                old(self)@[segment_code(seg_type)]
            } else {
                SegmentEntry { segment_type: seg_type, flags: 0, start_page: 0, end_page: 0, entry_count: 0 }
            }),
            final(self)@ == old(self)@.insert(segment_code(seg_type), *final(r)),
    {
        let k = seg_type.code();
        self.entries.entry(k).or_insert(SegmentEntry::new(seg_type))
    }

    /// The active entries, in the order the map hands them out (which is
    /// not specified).
    pub fn active_entries(&self) -> (r: Vec<SegmentEntry>)
        ensures
            lists_active(r@, self@),
    {
        let m = &self.entries;
        let ghost v = spec_hash_map_iter(m).remaining();
        let mut out: Vec<SegmentEntry> = Vec::new();
        for pair in it: m.iter()
            invariant
                it.seq() == v,
                v == spec_hash_map_iter(m).remaining(),
                forall|i: int| 0 <= i < v.len() ==> m@.contains_key(*v[i].0) && m@[*v[i].0] == *v[i].1,
                forall|j: int|
                    0 <= j < out@.len() ==> entry_active(#[trigger] out@[j]) && exists|k: u8|
                        #[trigger] m@.contains_key(k) && m@[k] == out@[j],
                forall|i: int| 0 <= i < it.index() && entry_active(*v[i].1) ==> out@.contains(*v[i].1),
        {
            let (key, e) = pair;
            let ghost k = it.index();
            let ghost before = out@;
            proof {
                assert(pair == v[k]);
                assert(m@.contains_key(*key) && m@[*key] == *e);
            }
            if e.is_active() {
                out.push(*e);
                proof {
                    assert(out@[before.len() as int] == *e);
                    assert forall|i: int| 0 <= i < k && entry_active(*v[i].1) implies out@.contains(*v[i].1) by {
                        let j = choose|j: int| 0 <= j < before.len() && before[j] == *v[i].1;
                        assert(out@[j] == before[j]);
                    }
                }
            }
            proof {
                if entry_active(*e) {
                    assert(out@[before.len() as int] == *v[k].1);
                }
            }
        }
        proof {
            assert forall|k: u8| #[trigger] m@.contains_key(k) && entry_active(m@[k]) implies out@.contains(m@[k]) by {
                assert(v.contains((&k, &m@[k])));
                let i = choose|i: int| 0 <= i < v.len() && v[i] == (&k, &m@[k]);
                assert(*v[i].1 == m@[k]);
            }
        }
        out
    }
}


impl Default for SegmentDirectory {
    /// An empty directory.
    fn default() -> (d: SegmentDirectory)
        ensures
            d@ == Map::<u8, SegmentEntry>::empty(),
    {
        SegmentDirectory::new()
    }
}

/// Each entry image is 32 bytes.
pub proof fn lemma_entries_image_len(s: Seq<SegmentEntry>)
    ensures
        entries_image(s).len() == 32 * s.len(),
    decreases s.len(),
{
    if s.len() > 0 {
        lemma_entries_image_len(s.drop_last());
    }
}

impl SegmentDirectory {
    /// Serialize the active entries (in the order the map hands them out)
    /// into a page of `page_size` bytes protected by a CRC-32C. Fails when
    /// the page cannot hold the entries or there are more than 65535 of
    /// them.
    pub fn to_bytes(&self, page_size: usize) -> (r: OvnResult<Vec<u8>>)
        requires
            8 <= page_size < 16 ==> exists|k: u8| #[trigger] self@.contains_key(k) && entry_active(self@[k]),
        ensures
            exists|es: Seq<SegmentEntry>|
                {
                    &&& #[trigger] lists_active(es, self@)
                    &&& if page_size < 4 {
                        r matches Err(OvnError::IoError(_))
                    } else if es.len() > 65535 {
                        r matches Err(OvnError::EncodingError(_))
                    } else if page_size < 8 + 32 * es.len() {
                        r matches Err(OvnError::IoError(_))
                    } else {
                        r matches Ok(out) && out@ == dir_image(es, page_size as nat)
                    }
                },
    {
        let active = self.active_entries();
        proof {
            if 8 <= page_size < 16 {
                let k = choose|k: u8| #[trigger] self@.contains_key(k) && entry_active(self@[k]);
                assert(active@.contains(self@[k]));
            }
        }
        if page_size < 4 {
            return Err(OvnError::IoError("segment directory does not fit in the page".to_string()));
        }
        if active.len() > 65535 {
            return Err(OvnError::EncodingError("Too many segment entries".to_string()));
        }
        let n = active.len();
        if page_size < 8 || (page_size - 8) / 32 < n {
            assert(page_size < 8 + 32 * n) by (nonlinear_arith)
                requires
                    page_size < 8 || (page_size - 8) / 32 < n,
            ;
            return Err(OvnError::IoError("segment directory does not fit in the page".to_string()));
        }
        assert(8 + 32 * n <= page_size) by (nonlinear_arith)
            requires
                page_size >= 8,
                (page_size - 8) / 32 >= n,
        ;
        let mut body: Vec<u8> = Vec::new();
        push_u32(&mut body, SEGMENT_DIR_MAGIC);
        push_u16(&mut body, n as u16);
        push_zeros(&mut body, 2);
        let ghost head = body@;
        let mut j: usize = 0;
        while j < n
            invariant
                j <= n == active@.len(),
                body@ == head + entries_image(active@.subrange(0, j as int)),
            decreases n - j,
        {
            let e = active[j];
            let b = e.to_bytes();
            push_slice(&mut body, b.as_slice());
            proof {
                assert(active@.subrange(0, j + 1).drop_last() =~= active@.subrange(0, j as int));
                assert(active@.subrange(0, j + 1).last() == active@[j as int]);
            }
            j = j + 1;
        }
        assert(active@.subrange(0, n as int) =~= active@);
        proof {
            lemma_entries_image_len(active@);
        }
        push_zeros(&mut body, page_size - 8 - 32 * n);
        assert(body@ =~= dir_body(active@, page_size as nat));
        let off: usize = if 0xFF00 <= page_size - 16 { 0xFF00 } else { page_size - 16 };
        let crc = crc32c(slice_subrange(body.as_slice(), 0, off));
        let mut out = copy_range(body.as_slice(), 0, off);
        push_u32(&mut out, crc);
        push_slice(&mut out, slice_subrange(body.as_slice(), off + 4, page_size));
        Ok(out)
    }

    /// Decode a directory page. Fails on a buffer under 8 bytes, a nonzero
    /// stored CRC that does not match, a wrong magic, or an entry count that
    /// runs past the buffer; entries of unknown type are skipped.
    pub fn from_bytes(buf: &[u8]) -> (r: OvnResult<SegmentDirectory>)
        requires
            buf@.len() >= 16 || buf@.len() < 8,
        ensures
            dir_parse_outcome(buf@, r),
            r matches Ok(d) ==> d.keys_consistent(),
    {
        if buf.len() < 8 {
            return Err(OvnError::EncodingError("Segment directory buffer too small".to_string()));
        }
        let len = buf.len();
        let off: usize = if 0xFF00 <= len - 16 { 0xFF00 } else { len - 16 };
        let stored = read_u32(buf, off);
        if stored != 0 {
            let computed = crc32c(slice_subrange(buf, 0, off));
            if computed != stored {
                return Err(
                    OvnError::ChecksumMismatch {
                        location: "segment directory".to_string(),
                        expected: stored,
                        actual: computed,
                    },
                );
            }
        }
        let magic = read_u32(buf, 0);
        if magic != SEGMENT_DIR_MAGIC {
            return Err(OvnError::EncodingError("Invalid segment directory magic".to_string()));
        }
        let count = read_u16(buf, 4) as usize;
        if 8 + 32 * count > len {
            return Err(OvnError::IoError("segment directory entries run past the buffer".to_string()));
        }
        let mut dir = SegmentDirectory::new();
        let mut i: usize = 0;
        while i < count
            invariant
                i <= count,
                count == u16_at(buf@, 4),
                8 + 32 * count <= len == buf@.len(),
                dir@ == parsed_dir(buf@, i as nat),
                dir.keys_consistent(),
            decreases count - i,
        {
            let arr: [u8; 32] = slice_to_array(slice_subrange(buf, 8 + 32 * i, 8 + 32 * (i + 1)));
            match SegmentEntry::from_bytes(&arr) {
                Some(e) => {
                    dir.upsert(e);
                },
                None => {},
            }
            i = i + 1;
        }
        Ok(dir)
    }
}


/// Map of entries keyed by their type codes (later entries win).
pub open spec fn entries_map(s: Seq<SegmentEntry>) -> Map<u8, SegmentEntry>
    decreases s.len(),
{
    if s.len() == 0 {
        Map::empty()
    } else {
        entries_map(s.drop_last()).insert(segment_code(s.last().segment_type), s.last())
    }
}

/// The active part of a directory view.
pub open spec fn active_view(m: Map<u8, SegmentEntry>) -> Map<u8, SegmentEntry> {
    Map::new(|k: u8| m.contains_key(k) && entry_active(m[k]), |k: u8| m[k])
}

/// Layout facts of a directory page whose entries end before the CRC.
proof fn lemma_dir_image_layout(es: Seq<SegmentEntry>, ps: nat)
    requires
        ps >= 16,
        es.len() <= 65535,
        8 + 32 * es.len() <= dir_crc_offset(ps as int),
    ensures
        ({
            let s = dir_image(es, ps);
            let off = dir_crc_offset(ps as int);
            &&& s.len() == ps
            &&& u32_at(s, off) == crc32c_of(s.subrange(0, off))
            &&& u32_at(s, 0) == SEGMENT_DIR_MAGIC
            &&& u16_at(s, 4) == es.len()
            &&& forall|k: int| 0 <= k < es.len() ==> #[trigger] s.subrange(8 + 32 * k, 8 + 32 * (k + 1))
                == entry_image(es[k])
        }),
{
    let body = dir_body(es, ps);
    let off = dir_crc_offset(ps as int);
    let s = dir_image(es, ps);
    lemma_entries_image_len(es);
    let crc = crc32c_of(body.subrange(0, off));
    assert(body.len() == ps);
    assert(s.len() == ps);
    assert(s.subrange(0, off) =~= body.subrange(0, off));
    assert(s.subrange(off, off + 4) =~= le_u32(crc));
    lemma_u32_at(s, off, crc);
    assert(s.subrange(0, 4) =~= le_u32(SEGMENT_DIR_MAGIC));
    lemma_u32_at(s, 0, SEGMENT_DIR_MAGIC);
    assert(s.subrange(4, 6) =~= le_u16(es.len() as u16));
    lemma_u16_at(s, 4, es.len() as u16);
    assert forall|k: int| 0 <= k < es.len() implies #[trigger] s.subrange(8 + 32 * k, 8 + 32 * (k + 1))
        == entry_image(es[k]) by {
        lemma_entries_image_at(es, k);
        assert(8 + 32 * (k + 1) <= 8 + 32 * es.len()) by (nonlinear_arith)
            requires
                k < es.len(),
        ;
        assert(s.subrange(8 + 32 * k, 8 + 32 * (k + 1)) =~= entries_image(es).subrange(32 * k, 32 * (k + 1)));
    }
}

/// Entry `k` of a concatenation of entry images sits at bytes `32k..32k+32`.
proof fn lemma_entries_image_at(es: Seq<SegmentEntry>, k: int)
    requires
        0 <= k < es.len(),
    ensures
        32 * (k + 1) <= entries_image(es).len(),
        entries_image(es).subrange(32 * k, 32 * (k + 1)) == entry_image(es[k]),
    decreases es.len(),
{
    lemma_entries_image_len(es);
    lemma_entries_image_len(es.drop_last());
    assert(32 * (k + 1) <= 32 * es.len()) by (nonlinear_arith)
        requires
            k < es.len(),
    ;
    let p = es.drop_last();
    let img = entries_image(es);
    if k == es.len() - 1 {
        assert(img.subrange(32 * k, 32 * (k + 1)) =~= entry_image(es.last()));
    } else {
        lemma_entries_image_at(p, k);
        assert(32 * (k + 1) <= 32 * p.len()) by (nonlinear_arith)
            requires
                k < p.len(),
        ;
        assert(img.subrange(32 * k, 32 * (k + 1)) =~= entries_image(p).subrange(32 * k, 32 * (k + 1)));
        assert(p[k] == es[k]);
    }
}

/// Decoding the entry slots of a well-laid-out page rebuilds the entries map.
proof fn lemma_parsed_dir_entries(s: Seq<u8>, es: Seq<SegmentEntry>, k: nat)
    requires
        k <= es.len(),
        forall|j: int| 0 <= j < es.len() ==> #[trigger] s.subrange(8 + 32 * j, 8 + 32 * (j + 1))
            == entry_image(es[j]),
    ensures
        parsed_dir(s, k) == entries_map(es.subrange(0, k as int)),
    decreases k,
{
    if k > 0 {
        lemma_parsed_dir_entries(s, es, (k - 1) as nat);
        let j = k - 1;
        assert(s.subrange(8 + 32 * j, 8 + 32 * (j + 1)) == entry_image(es[j as int]));
        lemma_entry_roundtrip(es[j as int]);
        assert(es.subrange(0, k as int).drop_last() =~= es.subrange(0, j as int));
        assert(8 + 32 * (k - 1) + 32 == 8 + 32 * (k as int));
    }
}

/// Keying a listing of entries of `m` by type code, where every key of `m`
/// names its entry's type, gives the entries of `m` listed.
proof fn lemma_entries_map_listing(m: Map<u8, SegmentEntry>, es: Seq<SegmentEntry>)
    requires
        forall|i: int| #![trigger es[i]] 0 <= i < es.len() ==> exists|k: u8| #[trigger] m.contains_key(k) && m[k] == es[i],
        forall|k: u8| #[trigger] m.contains_key(k) ==> segment_code(m[k].segment_type) == k,
    ensures
        forall|k: u8|
            #[trigger] entries_map(es).contains_key(k) <==> exists|i: int|
                0 <= i < es.len() && segment_code(es[i].segment_type) == k,
        forall|k: u8| #[trigger] entries_map(es).contains_key(k) ==> m.contains_key(k) && entries_map(es)[k] == m[k],
    decreases es.len(),
{
    if es.len() > 0 {
        let p = es.drop_last();
        assert forall|i: int| #![trigger p[i]] 0 <= i < p.len() implies exists|k: u8| #[trigger] m.contains_key(k) && m[k] == p[i] by {
            assert(p[i] == es[i]);
        }
        lemma_entries_map_listing(m, p);
        let e = es.last();
        assert(exists|k: u8| #[trigger] m.contains_key(k) && m[k] == es[es.len() - 1]);
        let k0 = choose|k: u8| #[trigger] m.contains_key(k) && m[k] == es[es.len() - 1];
        assert(segment_code(e.segment_type) == k0);
        assert(entries_map(es) == entries_map(p).insert(k0, e));
        assert forall|k: u8| #[trigger] entries_map(es).contains_key(k) <==> exists|i: int|
            0 <= i < es.len() && segment_code(es[i].segment_type) == k by {
            if entries_map(es).contains_key(k) && k != k0 {
                assert(entries_map(p).contains_key(k));
                let i = choose|i: int| 0 <= i < p.len() && segment_code(p[i].segment_type) == k;
                assert(es[i] == p[i]);
            }
            if k == k0 {
                assert(segment_code(es[es.len() - 1].segment_type) == k);
            }
            if exists|i: int| 0 <= i < es.len() && segment_code(es[i].segment_type) == k {
                let i = choose|i: int| 0 <= i < es.len() && segment_code(es[i].segment_type) == k;
                if i < es.len() - 1 {
                    assert(p[i] == es[i]);
                    assert(entries_map(p).contains_key(k));
                }
            }
        }
    }
}

/// A directory written by `to_bytes` decodes, by `from_bytes`, to its
/// active entries, in whatever order they were listed, provided the
/// entries end before the CRC offset and each entry sits under the code of
/// its own type.
pub proof fn lemma_directory_roundtrip(d: &SegmentDirectory, es: Seq<SegmentEntry>, page_size: usize)
    requires
        d.keys_consistent(),
        lists_active(es, d@),
        page_size >= 16,
        8 + 32 * es.len() <= dir_crc_offset(page_size as int),
    ensures
        forall|r: OvnResult<SegmentDirectory>| #[trigger] dir_parse_outcome(dir_image(es, page_size as nat), r)
            ==> (r matches Ok(e) && e@ == active_view(d@)),
{
    let s = dir_image(es, page_size as nat);
    let m = d@;
    lemma_dir_image_layout(es, page_size as nat);
    lemma_parsed_dir_entries(s, es, es.len());
    assert(es.subrange(0, es.len() as int) =~= es);
    lemma_entries_map_listing(m, es);
    let em = entries_map(es);
    assert forall|k: u8| #[trigger] em.contains_key(k) <==> active_view(m).contains_key(k) by {
        if em.contains_key(k) {
            let i = choose|i: int| 0 <= i < es.len() && segment_code(es[i].segment_type) == k;
            let k1 = choose|k1: u8| #[trigger] m.contains_key(k1) && m[k1] == es[i];
            assert(entry_active(es[i]));
        }
        if active_view(m).contains_key(k) {
            assert(es.contains(m[k]));
            let i = choose|i: int| 0 <= i < es.len() && es[i] == m[k];
        }
    }
    assert(em =~= active_view(m));
}

} // verus!
