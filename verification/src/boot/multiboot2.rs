use vstd::prelude::*;
use crate::utils::{align_up, round_up, lemma_pow2_is_power_of_two};

verus! {

pub const HEADER_SIZE: usize = 8;
pub const ALIGN: usize = 8;
pub const MAX_BOOTINFO_SIZE: usize = 64 * 1024;

pub const TAG_END: u32 = 0;
pub const TAG_MMAP: u32 = 6;
pub const TAG_FRAMEBUFFER: u32 = 8;
pub const MMAP_TYPE_AVAILABLE: u32 = 1;

/// Smallest memory-map entry that holds base, length and type.
pub const MMAP_ENTRY_MIN_SIZE: usize = 24;

#[derive(Clone, Copy, Debug, PartialEq, Eq, Structural)]
pub enum BootInfoError {
    NullPointer,
    MisalignedPointer,
    InvalidSize,
}

/// Little-endian value of the first four bytes of `s`.
pub open spec fn le_u32(s: Seq<u8>) -> int {
    s[0] + 256 * s[1] + 65536 * s[2] + 16777216 * s[3]
}

/// Little-endian value of the first eight bytes of `s`.
pub open spec fn le_u64(s: Seq<u8>) -> int {
    le_u32(s) + 4294967296 * le_u32(s.subrange(4, 8))
}

/// Reads a little-endian `u32` at `offset`.
fn read_u32(bytes: &[u8], offset: usize) -> (r: u32)
    requires
        offset + 4 <= bytes@.len(),
    ensures
        r == le_u32(bytes@.subrange(offset as int, offset + 4)),
{
    let b0 = bytes[offset] as u32;
    let b1 = bytes[offset + 1] as u32;
    let b2 = bytes[offset + 2] as u32;
    let b3 = bytes[offset + 3] as u32;
    b0 + 256 * b1 + 65536 * b2 + 16777216 * b3
}

/// Reads a little-endian `u64` at `offset`.
fn read_u64(bytes: &[u8], offset: usize) -> (r: u64)
    requires
        offset + 8 <= bytes@.len(),
    ensures
        r == le_u64(bytes@.subrange(offset as int, offset + 8)),
{
    let n = bytes.len();
    let lo = read_u32(bytes, offset) as u64;
    let hi = read_u32(bytes, offset + 4) as u64;
    proof {
        let s = bytes@.subrange(offset as int, offset + 8);
        assert(s.subrange(0, 4) =~= bytes@.subrange(offset as int, offset + 4));
        assert(s.subrange(4, 8).subrange(0, 4) =~= bytes@.subrange(offset + 4, offset + 8));
    }
    lo + 4294967296 * hi
}

/// One parsed tag: its type and its payload bytes.
pub type TagModel = (u32, Seq<u8>);

/// The tags that walking `rem` yields: each tag has an 8-byte header of type
/// and size; the walk stops at a short header, a size below the header or
/// past the end, or the end tag; the next tag starts at the size rounded up
/// to 8 bytes.
pub open spec fn tag_walk(rem: Seq<u8>) -> Seq<TagModel>
    decreases rem.len(),
{
    if rem.len() < HEADER_SIZE {
        Seq::empty()
    } else {
        let typ = le_u32(rem.subrange(0, 4));
        let size = le_u32(rem.subrange(4, 8));
        if size < HEADER_SIZE || size > rem.len() || typ == TAG_END || size + ALIGN - 1 > usize::MAX {
            Seq::empty()
        } else {
            let step = round_up(size, ALIGN as int);
            let next = if step <= rem.len() {
                rem.subrange(step, rem.len() as int)
            } else {
                Seq::empty()
            };
            seq![(typ as u32, rem.subrange(HEADER_SIZE as int, size))] + tag_walk(next)
        }
    }
}

proof fn lemma_tag_walk_len(rem: Seq<u8>)
    ensures
        tag_walk(rem).len() * HEADER_SIZE <= rem.len(),
    decreases rem.len(),
{
    if rem.len() >= HEADER_SIZE {
        let size = le_u32(rem.subrange(4, 8));
        let typ = le_u32(rem.subrange(0, 4));
        if !(size < HEADER_SIZE || size > rem.len() || typ == TAG_END || size + ALIGN - 1 > usize::MAX) {
            let step = round_up(size, ALIGN as int);
            assert(step >= size) by (nonlinear_arith)
                requires step == ((size + 8 - 1) / 8) * 8, size >= 0;
            if step <= rem.len() {
                lemma_tag_walk_len(rem.subrange(step, rem.len() as int));
            } else {
                lemma_tag_walk_len(Seq::<u8>::empty());
            }
        }
    }
}

/// The header size field of the block that `memory` starts with; zero when
/// `memory` is too short to hold it.
pub open spec fn declared_size(memory: Seq<u8>) -> int {
    if memory.len() >= 4 {
        le_u32(memory.subrange(0, 4))
    } else {
        0
    }
}

/// What `MultibootInfo::parse` decides for a pointer and the memory at it:
/// the block's bytes, or the error.
pub open spec fn parse_spec(ptr: usize, memory: Seq<u8>) -> Result<Seq<u8>, BootInfoError> {
    if ptr == 0 {
        Err(BootInfoError::NullPointer)
    } else if ptr % (ALIGN as usize) != 0 {
        Err(BootInfoError::MisalignedPointer)
    } else if declared_size(memory) < HEADER_SIZE || declared_size(memory) > MAX_BOOTINFO_SIZE
        || declared_size(memory) > memory.len() {
        Err(BootInfoError::InvalidSize)
    } else {
        Ok(memory.subrange(0, declared_size(memory)))
    }
}

/// The tags of a boot information block.
pub open spec fn tags_of(bytes: Seq<u8>) -> Seq<TagModel> {
    tag_walk(bytes.subrange(HEADER_SIZE as int, bytes.len() as int))
}

/// Some tag has type `typ`.
pub open spec fn has_tag(tags: Seq<TagModel>, typ: u32) -> bool {
    exists|i: int| 0 <= i < tags.len() && (#[trigger] tags[i]).0 == typ
}

/// Index of the first tag of type `typ`.
pub open spec fn first_tag(tags: Seq<TagModel>, typ: u32) -> Option<int>
    decreases tags.len(),
{
    if tags.len() == 0 {
        None
    } else if tags[0].0 == typ {
        Some(0)
    } else {
        match first_tag(tags.drop_first(), typ) {
            Some(i) => Some(i + 1),
            None => None,
        }
    }
}

proof fn lemma_first_tag(tags: Seq<TagModel>, typ: u32)
    ensures
        match first_tag(tags, typ) {
            Some(i) => 0 <= i < tags.len() && tags[i].0 == typ && forall|j: int| 0 <= j < i ==> (#[trigger] tags[j]).0 != typ,
            None => forall|j: int| 0 <= j < tags.len() ==> (#[trigger] tags[j]).0 != typ,
        },
    decreases tags.len(),
{
    if tags.len() > 0 {
        lemma_first_tag(tags.drop_first(), typ);
        assert forall|j: int| 1 <= j < tags.len() implies tags[j] == tags.drop_first()[j - 1] by {}
    }
}

/// The multiboot2 boot information block: its bytes, header included.
#[derive(Clone, Copy, Debug, PartialEq, Eq)]
pub struct MultibootInfo<'a> {
    bytes: &'a [u8],
}

/// A tag of the boot information.
#[derive(Clone, Copy, Debug, PartialEq, Eq)]
pub struct Tag<'a> {
    pub typ: u32,
    pub payload: &'a [u8],
}

impl<'a> View for Tag<'a> {
    type V = TagModel;

    open spec fn view(&self) -> TagModel {
        (self.typ, self.payload@)
    }
}

#[derive(Clone, Copy, Debug, PartialEq, Eq, Structural)]
pub struct BootInfoSummary {
    pub has_mmap: bool,
    pub has_framebuffer: bool,
    pub tag_count: usize,
}

impl BootInfoSummary {
    pub fn label(&self) -> (r: &'static str)
        ensures
            r@ == if self.has_mmap && self.has_framebuffer {
                "boot info: mmap + framebuffer tags found"@
            } else if self.has_mmap {
                "boot info: mmap tag found"@
            } else if self.has_framebuffer {
                "boot info: framebuffer tag found"@
            } else {
                "boot info: parsed, no mmap/framebuffer tags"@
            },
    {
        match (self.has_mmap, self.has_framebuffer) {
            (true, true) => "boot info: mmap + framebuffer tags found",
            (true, false) => "boot info: mmap tag found",
            (false, true) => "boot info: framebuffer tag found",
            (false, false) => "boot info: parsed, no mmap/framebuffer tags",
        }
    }
}

#[derive(Clone, Copy, Debug, PartialEq, Eq, Structural)]
pub struct MemoryMapHeader {
    pub entry_size: u32,
    pub entry_version: u32,
}

#[derive(Clone, Copy, Debug, PartialEq, Eq, Structural)]
pub struct MemoryMapEntry {
    pub base_addr: u64,
    pub length: u64,
    pub typ: u32,
}

impl MemoryMapEntry {
    pub fn is_available(self) -> (r: bool)
        ensures
            r == (self.typ == MMAP_TYPE_AVAILABLE),
    {
        self.typ == MMAP_TYPE_AVAILABLE
    }
}

/// The entry that the first 20 bytes of `raw` describe.
pub open spec fn entry_of(raw: Seq<u8>) -> MemoryMapEntry {
    MemoryMapEntry {
        base_addr: le_u64(raw.subrange(0, 8)) as u64,
        length: le_u64(raw.subrange(8, 16)) as u64,
        typ: le_u32(raw.subrange(16, 20)) as u32,
    }
}

/// The entries of a memory map body whose entries are `entry_size` bytes
/// long; a short remainder is not an entry.
pub open spec fn entry_walk(rem: Seq<u8>, entry_size: int) -> Seq<MemoryMapEntry>
    decreases rem.len(),
{
    if entry_size <= 0 || rem.len() < entry_size {
        Seq::empty()
    } else {
        seq![entry_of(rem.subrange(0, entry_size))] + entry_walk(rem.subrange(entry_size, rem.len() as int), entry_size)
    }
}

/// Walks the entries of a memory map.
pub struct MemoryMapIter<'a> {
    rem: &'a [u8],
    entry_size: usize,
}

impl<'a> View for MemoryMapIter<'a> {
    type V = Seq<MemoryMapEntry>;

    /// The entries still to come.
    closed spec fn view(&self) -> Seq<MemoryMapEntry> {
        entry_walk(self.rem@, self.entry_size as int)
    }
}

impl<'a> MemoryMapIter<'a> {
    #[verifier::type_invariant]
    spec fn entries_hold_fields(self) -> bool {
        self.entry_size >= MMAP_ENTRY_MIN_SIZE
    }

    /// The next entry, if any.
    pub fn next(&mut self) -> (r: Option<MemoryMapEntry>)
        ensures
            old(self)@.len() == 0 ==> r is None && final(self)@.len() == 0,
            old(self)@.len() > 0 ==> r == Some(old(self)@[0]) && final(self)@ == old(self)@.drop_first(),
    {
        proof {
            use_type_invariant(&*self);
        }
        if self.entry_size == 0 || self.rem.len() < self.entry_size {
            return None;
        }
        let len = self.rem.len();
        let raw = &self.rem[0..self.entry_size];
        self.rem = &self.rem[self.entry_size..len];
        if raw.len() < MMAP_ENTRY_MIN_SIZE {
            return None;
        }
        let base_addr = read_u64(raw, 0);
        let length = read_u64(raw, 8);
        let typ = read_u32(raw, 16);
        Some(MemoryMapEntry { base_addr, length, typ })
    }
}

/// The memory map that the tags hold: its header, body and entry size,
/// taken from the first memory-map tag; `None` when there is none or its
/// header is short or names entries smaller than an entry's fields.
pub open spec fn memory_map_spec(tags: Seq<TagModel>) -> Option<(MemoryMapHeader, Seq<u8>)> {
    match first_tag(tags, TAG_MMAP) {
        None => None,
        Some(i) => {
            let payload = tags[i].1;
            if payload.len() < 8 {
                None
            } else {
                let entry_size = le_u32(payload.subrange(0, 4));
                if entry_size < MMAP_ENTRY_MIN_SIZE {
                    None
                } else {
                    Some((
                        MemoryMapHeader {
                            entry_size: entry_size as u32,
                            entry_version: le_u32(payload.subrange(4, 8)) as u32,
                        },
                        payload.subrange(8, payload.len() as int),
                    ))
                }
            }
        },
    }
}

impl<'a> View for MultibootInfo<'a> {
    type V = Seq<u8>;

    closed spec fn view(&self) -> Seq<u8> {
        self.bytes@
    }
}

impl<'a> MultibootInfo<'a> {
    #[verifier::type_invariant]
    spec fn size_in_range(self) -> bool {
        HEADER_SIZE <= self.bytes@.len() <= MAX_BOOTINFO_SIZE
    }

    /// Checks the pointer to a boot information block and takes the block
    /// from `memory`, the bytes found at `ptr` (at least as many as the
    /// block's size field says, when the block is sound).
    pub fn parse(ptr: usize, memory: &'a [u8]) -> (r: Result<Self, BootInfoError>)
        ensures
            match r {
                Ok(info) => parse_spec(ptr, memory@) == Ok::<Seq<u8>, BootInfoError>(info@),
                Err(e) => parse_spec(ptr, memory@) == Err::<Seq<u8>, BootInfoError>(e),
            },
    {
        if ptr == 0 {
            return Err(BootInfoError::NullPointer);
        }
        if ptr % ALIGN != 0 {
            return Err(BootInfoError::MisalignedPointer);
        }
        let total_size: usize = if memory.len() >= 4 {
            read_u32(memory, 0) as usize
        } else {
            0
        };
        if !(HEADER_SIZE <= total_size && total_size <= MAX_BOOTINFO_SIZE) || total_size > memory.len() {
            return Err(BootInfoError::InvalidSize);
        }
        let bytes = &memory[0..total_size];
        Ok(MultibootInfo { bytes })
    }

    /// The block's size in bytes.
    pub fn total_size(&self) -> (r: usize)
        ensures
            r == self@.len(),
            HEADER_SIZE <= r <= MAX_BOOTINFO_SIZE,
    {
        proof {
            use_type_invariant(self);
        }
        self.bytes.len()
    }

    /// Walks the tags after the header. Each tag takes at least eight bytes,
    /// so the walk yields at most one tag per eight bytes after the header.
    pub fn tags(&self) -> (r: TagIter<'a>)
        ensures
            r@ == tags_of(self@),
            r@.len() * HEADER_SIZE <= self@.len() - HEADER_SIZE,
    {
        proof {
            use_type_invariant(self);
            lemma_tag_walk_len(self@.subrange(HEADER_SIZE as int, self@.len() as int));
        }
        TagIter { rem: &self.bytes[HEADER_SIZE..self.bytes.len()], done: false }
    }

    /// The memory map of the first memory-map tag, as a header and a walk
    /// over its entries.
    pub fn memory_map(&self) -> (r: Option<(MemoryMapHeader, MemoryMapIter<'a>)>)
        ensures
            match r {
                Some(m) => (memory_map_spec(tags_of(self@)) matches Some(s) && m.0 == s.0 && m.1@
                    == entry_walk(s.1, s.0.entry_size as int)),
                None => memory_map_spec(tags_of(self@)) is None,
            },
    {
        let ghost all = tags_of(self@);
        proof {
            lemma_first_tag(all, TAG_MMAP);
        }
        let mut iter = self.tags();
        let ghost mut k: int = 0;
        loop
            invariant
                all == tags_of(self@),
                0 <= k <= all.len(),
                iter@ == all.subrange(k, all.len() as int),
                forall|j: int| 0 <= j < k ==> (#[trigger] all[j]).0 != TAG_MMAP,
                match first_tag(all, TAG_MMAP) {
                    Some(i) => 0 <= i < all.len() && all[i].0 == TAG_MMAP && forall|j: int| 0 <= j < i ==> (#[trigger] all[j]).0 != TAG_MMAP,
                    None => forall|j: int| 0 <= j < all.len() ==> (#[trigger] all[j]).0 != TAG_MMAP,
                },
            ensures
                first_tag(all, TAG_MMAP) is None,
            decreases iter@.len(),
        {
            let tag = match iter.next() {
                Some(t) => t,
                None => {
                    proof {
                        if first_tag(all, TAG_MMAP) is Some {
                            let i = first_tag(all, TAG_MMAP).unwrap();
                            assert(i >= k);
                        }
                    }
                    break;
                },
            };
            proof {
                assert(tag@ == all[k]);
                assert(iter@ =~= all.subrange(k + 1, all.len() as int));
            }
            if tag.typ != TAG_MMAP {
                proof {
                    k = k + 1;
                }
                continue;
            }
            proof {
                assert(first_tag(all, TAG_MMAP) == Some(k));
                assert(tag.payload@ == all[k].1);
                assert(all == tags_of(self@));
            }
            if tag.payload.len() < 8 {
                assert(memory_map_spec(all) is None);
                return None;
            }
            let entry_size = read_u32(tag.payload, 0);
            let entry_version = read_u32(tag.payload, 4);
            let entries = &tag.payload[8..tag.payload.len()];
            if (entry_size as usize) < MMAP_ENTRY_MIN_SIZE {
                return None;
            }
            let header = MemoryMapHeader { entry_size, entry_version };
            let map_iter = MemoryMapIter { rem: entries, entry_size: entry_size as usize };
            return Some((header, map_iter));
        }
        None
    }

    /// Counts the tags and tells whether a memory map and a framebuffer tag
    /// are among them.
    pub fn summary(&self) -> (r: BootInfoSummary)
        ensures
            r.has_mmap == has_tag(tags_of(self@), TAG_MMAP),
            r.has_framebuffer == has_tag(tags_of(self@), TAG_FRAMEBUFFER),
            r.tag_count == tags_of(self@).len(),
    {
        proof {
            use_type_invariant(self);
            lemma_tag_walk_len(self@.subrange(HEADER_SIZE as int, self@.len() as int));
        }
        let mut has_mmap = false;
        let mut has_framebuffer = false;
        let mut tag_count: usize = 0;
        let ghost all = tags_of(self@);
        let mut iter = self.tags();
        loop
            invariant
                all.len() * HEADER_SIZE <= MAX_BOOTINFO_SIZE,
                tag_count <= all.len(),
                iter@ == all.subrange(tag_count as int, all.len() as int),
                has_mmap == has_tag(all.subrange(0, tag_count as int), TAG_MMAP),
                has_framebuffer == has_tag(all.subrange(0, tag_count as int), TAG_FRAMEBUFFER),
            ensures
                tag_count == all.len(),
                has_mmap == has_tag(all, TAG_MMAP),
                has_framebuffer == has_tag(all, TAG_FRAMEBUFFER),
            decreases iter@.len(),
        {
            let tag = match iter.next() {
                Some(t) => t,
                None => {
                    assert(all.subrange(0, tag_count as int) =~= all);
                    break;
                },
            };
            proof {
                let done = all.subrange(0, tag_count as int);
                let done2 = all.subrange(0, tag_count + 1);
                assert(tag@ == all[tag_count as int]);
                assert(done2 =~= done.push(tag@));
                assert(iter@ =~= all.subrange(tag_count + 1, all.len() as int));
                assert forall|typ: u32| has_tag(done2, typ) == (has_tag(done, typ) || tag.typ == typ) by {
                    if has_tag(done2, typ) {
                        let i = choose|i: int| 0 <= i < done2.len() && (#[trigger] done2[i]).0 == typ;
                        if i < done.len() {
                            assert(done[i] == done2[i]);
                        }
                    }
                    if has_tag(done, typ) {
                        let i = choose|i: int| 0 <= i < done.len() && (#[trigger] done[i]).0 == typ;
                        assert(done2[i] == done[i]);
                    }
                    if tag.typ == typ {
                        assert(done2[done.len() as int] == tag@);
                    }
                }
            }
            tag_count = tag_count + 1;
            if tag.typ == TAG_MMAP {
                has_mmap = true;
            } else if tag.typ == TAG_FRAMEBUFFER {
                has_framebuffer = true;
            }
        }
        BootInfoSummary { has_mmap, has_framebuffer, tag_count }
    }
}

/// However far a walk has got, the tags still to come number at most one
/// per eight bytes not yet stepped over.
pub proof fn law_tag_walk_bound(it: TagIter)
    ensures
        it@.len() * HEADER_SIZE <= it.remaining_bytes(),
{
    if !it.done {
        lemma_tag_walk_len(it.rem@);
    }
}

/// Walks the tags of a boot information block.
pub struct TagIter<'a> {
    rem: &'a [u8],
    done: bool,
}

impl<'a> View for TagIter<'a> {
    type V = Seq<TagModel>;

    /// The tags still to come.
    closed spec fn view(&self) -> Seq<TagModel> {
        if self.done {
            Seq::empty()
        } else {
            tag_walk(self.rem@)
        }
    }
}

impl<'a> TagIter<'a> {
    /// How many bytes of the block the walk has not stepped over yet.
    pub closed spec fn remaining_bytes(&self) -> nat {
        self.rem@.len()
    }

    /// The next tag, if any. Each tag handed out moves the walk on by at
    /// least eight bytes; once it has returned `None` it keeps doing so.
    pub fn next(&mut self) -> (r: Option<Tag<'a>>)
        ensures
            old(self)@.len() == 0 ==> r is None && final(self)@.len() == 0,
            old(self)@.len() > 0 ==> (r matches Some(t) && t@ == old(self)@[0]) && final(self)@
                == old(self)@.drop_first(),
            r is Some ==> final(self).remaining_bytes() + HEADER_SIZE <= old(self).remaining_bytes(),
            r is None ==> final(self).remaining_bytes() <= old(self).remaining_bytes(),
    {
        if self.done || self.rem.len() < HEADER_SIZE {
            return None;
        }
        let typ = read_u32(self.rem, 0);
        let size = read_u32(self.rem, 4) as usize;
        if size < HEADER_SIZE || size > self.rem.len() {
            self.done = true;
            return None;
        }
        if typ == TAG_END {
            self.done = true;
            return None;
        }
        let payload = &self.rem[HEADER_SIZE..size];
        proof {
            vstd::arithmetic::power2::lemma2_to64();
            lemma_pow2_is_power_of_two(ALIGN, 3);
        }
        let step = match align_up(size, ALIGN) {
            Some(s) => s,
            None => {
                self.done = true;
                return None;
            },
        };
        let ghost old_rem = self.rem@;
        let len = self.rem.len();
        self.rem = if step <= len {
            &self.rem[step..len]
        } else {
            &self.rem[len..len]
        };
        proof {
            assert(typ == le_u32(old_rem.subrange(0, 4)));
            assert(size == le_u32(old_rem.subrange(4, 8)));
            assert(payload@ == old_rem.subrange(HEADER_SIZE as int, size as int));
            assert(step == round_up(size as int, ALIGN as int));
            if step > len {
                assert(self.rem@ =~= Seq::<u8>::empty());
            }
            assert(step >= size) by (nonlinear_arith)
                requires step == ((size + 8 - 1) / 8) * 8, size >= 0;
            let t = seq![(typ, payload@)];
            assert(tag_walk(old_rem) =~= t + tag_walk(self.rem@));
            assert((t + tag_walk(self.rem@)).drop_first() =~= tag_walk(self.rem@));
        }
        Some(Tag { typ, payload })
    }
}

} // verus!
