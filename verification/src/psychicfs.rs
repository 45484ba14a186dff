//! PsychicFS: an extent-based file system on a small block device.
//!
//! Disk layout (512-byte sectors): superblock at sector 0, inode table at
//! sectors 1..=64 (four 128-byte inodes per sector), block bitmap at sectors
//! 65 and 66, data blocks from sector 128 on. The functions here compute on
//! sector contents; reading and writing sectors is the caller's part.
use vstd::prelude::*;
use crate::bytes::{le16, le32, le64, get16, get32, get64, lemma_get16, lemma_get32, lemma_get64,
    push16, push32, push64, push_zeros, read16, read32, read64};

verus! {

pub const FS_MAGIC: u32 = 0x50535946;
pub const FS_VERSION: u16 = 3;
pub const SUPERBLOCK_SECTOR: u64 = 0;
pub const INODE_TABLE_START: u64 = 1;
pub const INODE_TABLE_SECTORS: u64 = 64;
pub const BITMAP_SECTOR: u64 = 65;
pub const DATA_BLOCKS_START: u64 = 128;
pub const MAX_FILENAME_LEN: usize = 48;
pub const MAX_FILES: usize = 256;
pub const BLOCK_SIZE: usize = 512;
pub const INLINE_EXTENTS: usize = 4;
pub const CACHE_SIZE: usize = 32;
pub const TOTAL_BLOCKS: u32 = 8192;
pub const BITMAP_BYTES: usize = 1024;

/// A run of `count` contiguous disk blocks holding the file's blocks from
/// `logical_block` on; `count == 0` marks an unused slot.
#[derive(Clone, Copy, PartialEq, Eq, Structural)]
pub struct Extent {
    pub logical_block: u16,
    pub physical_block: u32,
    pub count: u16,
}

/// Whether the extent maps logical block `l`.
pub open spec fn ext_contains(e: Extent, l: int) -> bool {
    e.count != 0 && e.logical_block <= l < e.logical_block + e.count
}

/// The disk block of logical block `l` in the extent, wrapping at 2^32.
pub open spec fn ext_translate(e: Extent, l: int) -> Option<u32> {
    if ext_contains(e, l) {
        Some(((e.physical_block + (l - e.logical_block)) % 0x1_0000_0000) as u32)
    } else {
        None
    }
}

/// The translation by the first extent that maps `l`.
pub open spec fn first_translation(exts: Seq<Extent>, l: int) -> Option<u32>
    decreases exts.len(),
{
    if exts.len() == 0 {
        None
    } else if ext_contains(exts[0], l) {
        ext_translate(exts[0], l)
    } else {
        first_translation(exts.drop_first(), l)
    }
}

impl Extent {
    pub fn empty() -> (e: Self)
        ensures
            e == (Extent { logical_block: 0, physical_block: 0, count: 0 }),
    {
        Extent { logical_block: 0, physical_block: 0, count: 0 }
    }

    pub fn is_empty(&self) -> (r: bool)
        ensures
            r == (self.count == 0),
    {
        self.count == 0
    }

    /// Whether logical block `logical` falls inside this extent.
    pub fn contains(&self, logical: u16) -> (r: bool)
        ensures
            r == ext_contains(*self, logical as int),
    {
        !self.is_empty() && logical >= self.logical_block
            && (logical as u32) < (self.logical_block as u32) + (self.count as u32)
    }

    /// The disk block holding logical block `logical`, if this extent maps it.
    pub fn translate(&self, logical: u16) -> (r: Option<u32>)
        ensures
            r == ext_translate(*self, logical as int),
    {
        if self.contains(logical) {
            let off = (logical - self.logical_block) as u32;
            let p = self.physical_block.wrapping_add(off);
            assert(p == (self.physical_block + off) % 0x1_0000_0000) by {
                assert(self.physical_block + off < 2 * 0x1_0000_0000);
            }
            Some(p)
        } else {
            None
        }
    }
}

/// Length of the stored name: bytes up to the first zero, or all of them.
pub open spec fn name_len(n: Seq<u8>) -> int
    decreases n.len(),
{
    if n.len() == 0 {
        0
    } else if n[0] == 0 {
        0
    } else {
        1 + name_len(n.drop_first())
    }
}

proof fn lemma_name_len(n: Seq<u8>, k: int)
    requires
        0 <= k <= n.len(),
        forall|i: int| 0 <= i < k ==> n[i] != 0,
        k == n.len() || n[k] == 0,
    ensures
        name_len(n) == k,
    decreases n.len(),
{
    if n.len() > 0 && k > 0 {
        lemma_name_len(n.drop_first(), k - 1);
    }
}

/// A file's inode: its metadata and up to four inline extents.
pub struct Inode {
    pub in_use: u8,
    pub file_type: u8,
    pub permissions: u16,
    pub size: u32,
    pub created_time: u64,
    pub modified_time: u64,
    pub extents: Vec<Extent>,
    pub extent_indirect: u32,
    pub last_extent_idx: u16,
    pub extent_count: u16,
    pub name: Vec<u8>,
    pub dirty: u8,
}

impl Inode {
    /// Four extent slots and a 48-byte name field.
    pub open spec fn wf(&self) -> bool {
        &&& self.extents@.len() == INLINE_EXTENTS
        &&& self.name@.len() == MAX_FILENAME_LEN
    }

    /// All fields equal, the vectors by their contents.
    pub open spec fn same(&self, o: &Inode) -> bool {
        &&& self.in_use == o.in_use && self.file_type == o.file_type && self.permissions == o.permissions
        &&& self.size == o.size && self.created_time == o.created_time && self.modified_time == o.modified_time
        &&& self.extents@ == o.extents@ && self.extent_indirect == o.extent_indirect
        &&& self.last_extent_idx == o.last_extent_idx && self.extent_count == o.extent_count
        &&& self.name@ == o.name@ && self.dirty == o.dirty
    }

    /// A free inode with permissions 0o644.
    pub fn new() -> (i: Self)
        ensures
            i.wf(),
            i.in_use == 0 && i.file_type == 0 && i.permissions == 0o644 && i.size == 0,
            i.created_time == 0 && i.modified_time == 0,
            forall|k: int| 0 <= k < INLINE_EXTENTS ==> i.extents@[k] == Extent::empty_spec(),
            i.extent_indirect == 0 && i.last_extent_idx == 0 && i.extent_count == 0,
            forall|k: int| 0 <= k < MAX_FILENAME_LEN ==> i.name@[k] == 0,
            i.dirty == 0,
    {
        let mut extents: Vec<Extent> = Vec::new();
        let mut k: usize = 0;
        while k < INLINE_EXTENTS
            invariant
                k <= INLINE_EXTENTS,
                extents@.len() == k,
                forall|j: int| 0 <= j < k ==> extents@[j] == Extent::empty_spec(),
            decreases INLINE_EXTENTS - k,
        {
            extents.push(Extent::empty());
            k = k + 1;
        }
        let mut name: Vec<u8> = Vec::new();
        push_zeros(&mut name, MAX_FILENAME_LEN);
        Inode {
            in_use: 0,
            file_type: 0,
            permissions: 0o644,
            size: 0,
            created_time: 0,
            modified_time: 0,
            extents,
            extent_indirect: 0,
            last_extent_idx: 0,
            extent_count: 0,
            name,
            dirty: 0,
        }
    }
}

/// The stored name as text: its bytes decoded when they are valid UTF-8,
/// else the empty string.
pub open spec fn stored_name(n: Seq<u8>) -> Seq<char> {
    let b = n.subrange(0, name_len(n));
    if vstd::utf8::valid_utf8(b) { vstd::utf8::decode_utf8(b) } else { Seq::empty() }
}

/// The name field after storing the UTF-8 bytes `b`: at most 47 of them,
/// then a zero byte; the rest of the field is kept.
pub open spec fn name_field_after(old: Seq<u8>, b: Seq<u8>) -> Seq<u8> {
    let len = if b.len() < 47 { b.len() as int } else { 47 };
    b.subrange(0, len) + seq![0u8] + old.subrange(len + 1, 48)
}

/// The extent slots after `add_extent(physical_start, count)`, and whether it
/// succeeded: extend the last extent when the new blocks follow it on disk,
/// else fill the first free slot.
pub open spec fn extents_after_add(i: Inode, physical_start: u32, count: u16) -> (bool, Seq<Extent>, u16, u16) {
    let exts = i.extents@;
    let last = i.last_extent_idx as int;
    if i.extent_count > 0 && last >= INLINE_EXTENTS {
        (false, exts, i.last_extent_idx, i.extent_count)
    } else if i.extent_count > 0 && exts[last].physical_block + exts[last].count == physical_start {
        (true, exts.update(last, Extent { count: (exts[last].count + count) as u16, ..exts[last] }), i.last_extent_idx, i.extent_count)
    } else {
        let logical = if i.extent_count == 0 { 0 } else { exts[last].logical_block + exts[last].count };
        let slot = first_free_slot(exts);
        if slot < exts.len() {
            (true, exts.update(slot, Extent { logical_block: logical as u16, physical_block: physical_start, count }),
                slot as u16, (i.extent_count + 1) as u16)
        } else {
            (false, exts, i.last_extent_idx, i.extent_count)
        }
    }
}

/// Index of the first unused extent slot, or the length when all are used.
pub open spec fn first_free_slot(exts: Seq<Extent>) -> int
    decreases exts.len(),
{
    if exts.len() == 0 {
        0
    } else if exts[0].count == 0 {
        0
    } else {
        1 + first_free_slot(exts.drop_first())
    }
}

proof fn lemma_first_free_slot(exts: Seq<Extent>, k: int)
    requires
        0 <= k <= exts.len(),
        forall|j: int| 0 <= j < k ==> (#[trigger] exts[j]).count != 0,
        k == exts.len() || exts[k].count == 0,
    ensures
        first_free_slot(exts) == k,
    decreases exts.len(),
{
    if exts.len() > 0 && k > 0 {
        assert forall|j: int| 0 <= j < k - 1 implies (#[trigger] exts.drop_first()[j]).count != 0 by {
            assert(exts.drop_first()[j] == exts[j + 1]);
        }
        lemma_first_free_slot(exts.drop_first(), k - 1);
    }
}

proof fn lemma_first_translation(exts: Seq<Extent>, l: int, k: int)
    requires
        0 <= k <= exts.len(),
        forall|j: int| 0 <= j < k ==> !ext_contains(#[trigger] exts[j], l),
    ensures
        first_translation(exts, l) == first_translation(exts.subrange(k, exts.len() as int), l),
    decreases k,
{
    if k > 0 {
        assert(!ext_contains(exts[0], l));
        assert forall|j: int| 0 <= j < k - 1 implies !ext_contains(#[trigger] exts.drop_first()[j], l) by {
            assert(exts.drop_first()[j] == exts[j + 1]);
        }
        lemma_first_translation(exts.drop_first(), l, k - 1);
        assert(exts.drop_first().subrange(k - 1, exts.len() - 1) =~= exts.subrange(k, exts.len() as int));
    } else {
        assert(exts.subrange(0, exts.len() as int) =~= exts);
    }
}

impl Inode {
    /// The stored name: the bytes before the first zero, decoded as UTF-8,
    /// or the empty string when they are not valid UTF-8.
    pub fn get_name(&self) -> (r: String)
        requires
            self.wf(),
        ensures
            r@ == stored_name(self.name@),
    {
        let mut len: usize = 0;
        while len < MAX_FILENAME_LEN && self.name[len] != 0
            invariant
                self.wf(),
                len <= MAX_FILENAME_LEN,
                forall|i: int| 0 <= i < len ==> self.name@[i] != 0,
            decreases MAX_FILENAME_LEN - len,
        {
            len = len + 1;
        }
        proof { lemma_name_len(self.name@, len as int); }
        let mut prefix: Vec<u8> = Vec::new();
        let mut i: usize = 0;
        while i < len
            invariant
                self.wf(),
                len <= MAX_FILENAME_LEN,
                i <= len,
                prefix@ == self.name@.subrange(0, i as int),
            decreases len - i,
        {
            prefix.push(self.name[i]);
            i = i + 1;
            assert(prefix@ =~= self.name@.subrange(0, i as int));
        }
        match crate::text::utf8_strict(prefix.as_slice()) {
            Some(s) => s,
            None => String::new(),
        }
    }

    /// Stores the name's UTF-8 bytes, cut to 47, followed by a zero byte.
    pub fn set_name(&mut self, name: &str)
        requires
            old(self).wf(),
        ensures
            final(self).wf(),
            final(self).name@ == name_field_after(old(self).name@, vstd::utf8::encode_utf8(name@)),
            final(self).same_except_name(old(self)),
    {
        let bytes = name.as_bytes();
        let n = bytes.len();
        let len: usize = if n < MAX_FILENAME_LEN - 1 { n } else { MAX_FILENAME_LEN - 1 };
        let ghost before = self.name@;
        let mut i: usize = 0;
        while i < len
            invariant
                len <= 47,
                len <= bytes@.len(),
                i <= len,
                self.name@.len() == 48,
                forall|k: int| 0 <= k < i ==> self.name@[k] == bytes@[k],
                forall|k: int| i <= k < 48 ==> self.name@[k] == before[k],
                self.extents@ == old(self).extents@,
                self.same_except_name(old(self)),
            decreases len - i,
        {
            self.name.set(i, bytes[i]);
            i = i + 1;
        }
        self.name.set(len, 0);
        assert(self.name@ =~= name_field_after(before, vstd::utf8::encode_utf8(name@)));
    }

    /// The disk block holding logical block `logical`: the first inline
    /// extent that maps it decides.
    pub fn get_physical_block(&self, logical: u16) -> (r: Option<u32>)
        requires
            self.wf(),
        ensures
            r == first_translation(self.extents@, logical as int),
    {
        let mut i: usize = 0;
        while i < INLINE_EXTENTS
            invariant
                self.wf(),
                i <= INLINE_EXTENTS,
                forall|j: int| 0 <= j < i ==> !ext_contains(#[trigger] self.extents@[j], logical as int),
            decreases INLINE_EXTENTS - i,
        {
            if let Some(p) = self.extents[i].translate(logical) {
                proof {
                    lemma_first_translation(self.extents@, logical as int, i as int);
                    assert(self.extents@.subrange(i as int, 4)[0] == self.extents@[i as int]);
                }
                return Some(p);
            }
            i = i + 1;
        }
        proof {
            lemma_first_translation(self.extents@, logical as int, 4);
            assert(self.extents@.subrange(4, 4).len() == 0);
        }
        None
    }

    /// Appends a run of `count` disk blocks from `physical_start` to the
    /// file: the last extent grows when the run follows it on disk, else the
    /// run takes the first free slot. False when no slot is free.
    pub fn add_extent(&mut self, physical_start: u32, count: u16) -> (ok: bool)
        requires
            old(self).wf(),
            old(self).extent_count < u16::MAX,
            old(self).extent_count > 0 && old(self).last_extent_idx < INLINE_EXTENTS ==> {
                let e = old(self).extents@[old(self).last_extent_idx as int];
                &&& e.logical_block + e.count <= u16::MAX
                &&& e.physical_block + e.count <= u32::MAX
                &&& e.count + count <= u16::MAX
            },
        ensures
            final(self).wf(),
            ({
                let (b, exts, last, n) = extents_after_add(*old(self), physical_start, count);
                &&& ok == b
                &&& final(self).extents@ == exts
                &&& final(self).last_extent_idx == last
                &&& final(self).extent_count == n
            }),
            final(self).same_except_extents(old(self)),
    {
        let logical_start: u16 = if self.extent_count == 0 {
            0
        } else {
            let last_idx = self.last_extent_idx as usize;
            if last_idx < INLINE_EXTENTS {
                self.extents[last_idx].logical_block + self.extents[last_idx].count
            } else {
                return false;
            }
        };
        if self.extent_count > 0 {
            let last_idx = self.last_extent_idx as usize;
            let last = self.extents[last_idx];
            if last.physical_block + last.count as u32 == physical_start {
                self.extents.set(last_idx, Extent { count: last.count + count, ..last });
                return true;
            }
        }
        let mut i: usize = 0;
        while i < INLINE_EXTENTS
            invariant
                self.wf(),
                *self == *old(self),
                old(self).extent_count < u16::MAX,
                old(self).extent_count > 0 ==> old(self).last_extent_idx < INLINE_EXTENTS,
                old(self).extent_count > 0 ==> ({
                    let e = old(self).extents@[old(self).last_extent_idx as int];
                    &&& e.physical_block + e.count != physical_start
                    &&& logical_start == e.logical_block + e.count
                }),
                old(self).extent_count == 0 ==> logical_start == 0,
                i <= INLINE_EXTENTS,
                forall|j: int| 0 <= j < i ==> (#[trigger] self.extents@[j]).count != 0,
            decreases INLINE_EXTENTS - i,
        {
            if self.extents[i].is_empty() {
                proof { lemma_first_free_slot(self.extents@, i as int); }
                self.extents.set(i, Extent { logical_block: logical_start, physical_block: physical_start, count });
                self.last_extent_idx = i as u16;
                self.extent_count = self.extent_count + 1;
                return true;
            }
            i = i + 1;
        }
        proof { lemma_first_free_slot(self.extents@, 4); }
        false
    }

    /// Empties every extent slot.
    pub fn clear_extents(&mut self)
        requires
            old(self).wf(),
        ensures
            final(self).wf(),
            forall|k: int| 0 <= k < INLINE_EXTENTS ==> final(self).extents@[k] == Extent::empty_spec(),
            final(self).extent_indirect == 0 && final(self).last_extent_idx == 0 && final(self).extent_count == 0,
            final(self).same_except_extents(old(self)),
    {
        let mut i: usize = 0;
        while i < INLINE_EXTENTS
            invariant
                self.wf(),
                i <= INLINE_EXTENTS,
                forall|k: int| 0 <= k < i ==> self.extents@[k] == Extent::empty_spec(),
                self.same_except_extents(old(self)),
                self.extent_indirect == old(self).extent_indirect,
                self.last_extent_idx == old(self).last_extent_idx,
                self.extent_count == old(self).extent_count,
            decreases INLINE_EXTENTS - i,
        {
            self.extents.set(i, Extent::empty());
            i = i + 1;
        }
        self.extent_indirect = 0;
        self.last_extent_idx = 0;
        self.extent_count = 0;
    }

    /// Every field but the name equal.
    pub open spec fn same_except_name(&self, o: &Inode) -> bool {
        &&& self.in_use == o.in_use && self.file_type == o.file_type && self.permissions == o.permissions
        &&& self.size == o.size && self.created_time == o.created_time && self.modified_time == o.modified_time
        &&& self.extents@ == o.extents@ && self.extent_indirect == o.extent_indirect
        &&& self.last_extent_idx == o.last_extent_idx && self.extent_count == o.extent_count
        &&& self.dirty == o.dirty
    }

    /// Every field but the extents and their bookkeeping equal.
    pub open spec fn same_except_extents(&self, o: &Inode) -> bool {
        &&& self.in_use == o.in_use && self.file_type == o.file_type && self.permissions == o.permissions
        &&& self.size == o.size && self.created_time == o.created_time && self.modified_time == o.modified_time
        &&& self.name@ == o.name@ && self.dirty == o.dirty
    }
}

/// On-disk form of one extent: logical block, disk block, count (8 bytes).
pub open spec fn extent_bytes(e: Extent) -> Seq<u8> {
    le16(e.logical_block) + le32(e.physical_block) + le16(e.count)
}

/// The extents one after another.
pub open spec fn extents_bytes(s: Seq<Extent>) -> Seq<u8>
    decreases s.len(),
{
    if s.len() == 0 {
        Seq::empty()
    } else {
        extents_bytes(s.drop_last()) + extent_bytes(s.last())
    }
}

/// `n` zero bytes.
pub open spec fn zeros(n: nat) -> Seq<u8> {
    Seq::new(n, |i: int| 0u8)
}

/// The 128-byte on-disk form of an inode, little-endian: in_use, file_type,
/// permissions, size, created and modified time at 0..24, the four extents
/// at 24..56, the indirect block, last extent index and extent count at
/// 56..64, the name at 64..112, the dirty flag at 112, zeros after.
pub open spec fn inode_bytes(i: Inode) -> Seq<u8> {
    seq![i.in_use, i.file_type] + le16(i.permissions) + le32(i.size) + le64(i.created_time) + le64(i.modified_time)
        + extents_bytes(i.extents@) + le32(i.extent_indirect) + le16(i.last_extent_idx) + le16(i.extent_count)
        + i.name@ + seq![i.dirty] + zeros(15)
}

/// The inode the 128 bytes at `o` describe.
pub open spec fn decodes_to(b: Seq<u8>, o: int, i: Inode) -> bool {
    &&& i.wf()
    &&& i.in_use == b[o] && i.file_type == b[o + 1]
    &&& i.permissions == get16(b, o + 2) && i.size == get32(b, o + 4)
    &&& i.created_time == get64(b, o + 8) && i.modified_time == get64(b, o + 16)
    &&& forall|k: int| 0 <= k < INLINE_EXTENTS ==> #[trigger] i.extents@[k] == (Extent {
        logical_block: get16(b, o + 24 + 8 * k),
        physical_block: get32(b, o + 26 + 8 * k),
        count: get16(b, o + 30 + 8 * k),
    })
    &&& i.extent_indirect == get32(b, o + 56)
    &&& i.last_extent_idx == get16(b, o + 60) && i.extent_count == get16(b, o + 62)
    &&& i.name@ == b.subrange(o + 64, o + 112)
    &&& i.dirty == b[o + 112]
}

proof fn lemma_extents_bytes_len(s: Seq<Extent>)
    ensures
        extents_bytes(s).len() == 8 * s.len(),
    decreases s.len(),
{
    if s.len() > 0 {
        lemma_extents_bytes_len(s.drop_last());
    }
}

proof fn lemma_extents_bytes_at(s: Seq<Extent>, k: int)
    requires
        0 <= k < s.len(),
    ensures
        extents_bytes(s).subrange(8 * k, 8 * k + 8) == extent_bytes(s[k]),
    decreases s.len(),
{
    lemma_extents_bytes_len(s.drop_last());
    if k < s.len() - 1 {
        lemma_extents_bytes_at(s.drop_last(), k);
        assert(extents_bytes(s).subrange(8 * k, 8 * k + 8) =~= extents_bytes(s.drop_last()).subrange(8 * k, 8 * k + 8));
    } else {
        assert(extents_bytes(s).subrange(8 * k, 8 * k + 8) =~= extent_bytes(s.last()));
    }
}

proof fn lemma_scalar_no_zero(v: u32)
    requires
        vstd::utf8::is_scalar(v),
        v != 0,
    ensures
        forall|j: int| 0 <= j < vstd::utf8::encode_scalar(v).len() ==> #[trigger] vstd::utf8::encode_scalar(v)[j] != 0,
{
    assert(((v & 0x7F) as u8) != 0 || !(0 < v <= 0x7F)) by (bit_vector);
    assert((0xC0u8 | ((v >> 6u32) & 0x1F) as u8) != 0) by (bit_vector);
    assert((0xE0u8 | ((v >> 12u32) & 0x0F) as u8) != 0) by (bit_vector);
    assert((0xF0u8 | ((v >> 18u32) & 0x7) as u8) != 0) by (bit_vector);
    assert((0x80u8 | (v & 0x3F) as u8) != 0) by (bit_vector);
    assert((0x80u8 | ((v >> 6u32) & 0x3F) as u8) != 0) by (bit_vector);
    assert((0x80u8 | ((v >> 12u32) & 0x3F) as u8) != 0) by (bit_vector);
}

/// The UTF-8 form of text without NUL characters has no zero byte.
proof fn lemma_encode_no_zero(chars: Seq<char>)
    requires
        forall|k: int| 0 <= k < chars.len() ==> (#[trigger] chars[k]) as u32 != 0,
    ensures
        forall|j: int| 0 <= j < vstd::utf8::encode_utf8(chars).len() ==> #[trigger] vstd::utf8::encode_utf8(chars)[j] != 0,
    decreases chars.len(),
{
    if chars.len() > 0 {
        let head = vstd::utf8::encode_scalar(chars[0] as u32);
        let rest = vstd::utf8::encode_utf8(chars.drop_first());
        vstd::utf8::char_is_scalar(chars[0]);
        lemma_scalar_no_zero(chars[0] as u32);
        assert forall|k: int| 0 <= k < chars.drop_first().len() implies (#[trigger] chars.drop_first()[k]) as u32 != 0 by {
            assert(chars.drop_first()[k] == chars[k + 1]);
        }
        lemma_encode_no_zero(chars.drop_first());
        assert forall|j: int| 0 <= j < vstd::utf8::encode_utf8(chars).len() implies #[trigger] vstd::utf8::encode_utf8(chars)[j] != 0 by {
            assert(vstd::utf8::encode_utf8(chars) == head + rest);
            if j < head.len() {
                assert((head + rest)[j] == head[j]);
            } else {
                assert((head + rest)[j] == rest[j - head.len()]);
            }
        }
    }
}

/// Storing a name and reading it back gives the name: after
/// `set_name(name)` (which makes the field `name_field_after(..)`),
/// `get_name()` (which reads `stored_name` of the field) returns `name`, when
/// its UTF-8 form has at most 47 bytes and it holds no NUL character.
pub proof fn lemma_name_round_trip(field: Seq<u8>, name: Seq<char>)
    requires
        field.len() == MAX_FILENAME_LEN,
        vstd::utf8::encode_utf8(name).len() <= 47,
        forall|k: int| 0 <= k < name.len() ==> (#[trigger] name[k]) as u32 != 0,
    ensures
        stored_name(name_field_after(field, vstd::utf8::encode_utf8(name))) == name,
{
    let b = vstd::utf8::encode_utf8(name);
    let f = name_field_after(field, b);
    lemma_encode_no_zero(name);
    assert(b.subrange(0, b.len() as int) =~= b);
    assert forall|i: int| 0 <= i < b.len() implies f[i] != 0 by {
        assert(f[i] == b[i]);
    }
    assert(f[b.len() as int] == 0u8);
    lemma_name_len(f, b.len() as int);
    assert(f.subrange(0, b.len() as int) =~= b);
    vstd::utf8::encode_utf8_valid_utf8(name);
    vstd::utf8::encode_utf8_decode_utf8(name);
}

/// Reading an inode back from its on-disk form gives the same inode.
pub proof fn lemma_inode_round_trip(i: Inode)
    requires
        i.wf(),
    ensures
        inode_bytes(i).len() == 128,
        decodes_to(inode_bytes(i), 0, i),
{
    let b = inode_bytes(i);
    lemma_extents_bytes_len(i.extents@);
    assert(b.len() == 128);
    assert(b.subrange(2, 4) =~= le16(i.permissions));
    lemma_get16(b, 2, i.permissions);
    assert(b.subrange(4, 8) =~= le32(i.size));
    lemma_get32(b, 4, i.size);
    assert(b.subrange(8, 16) =~= le64(i.created_time));
    lemma_get64(b, 8, i.created_time);
    assert(b.subrange(16, 24) =~= le64(i.modified_time));
    lemma_get64(b, 16, i.modified_time);
    let eb = extents_bytes(i.extents@);
    assert(b.subrange(24, 56) =~= eb);
    assert forall|k: int| 0 <= k < INLINE_EXTENTS implies #[trigger] i.extents@[k] == (Extent {
        logical_block: get16(b, 24 + 8 * k),
        physical_block: get32(b, 26 + 8 * k),
        count: get16(b, 30 + 8 * k),
    }) by {
        lemma_extents_bytes_at(i.extents@, k);
        let e = i.extents@[k];
        assert(b.subrange(24 + 8 * k, 26 + 8 * k) =~= le16(e.logical_block)) by {
            assert forall|j: int| 0 <= j < 2 implies #[trigger] b.subrange(24 + 8 * k, 26 + 8 * k)[j] == le16(e.logical_block)[j] by {
                assert(b[24 + 8 * k + j] == eb[8 * k + j]);
                assert(eb[8 * k + j] == eb.subrange(8 * k, 8 * k + 8)[j]);
            }
        }
        assert(b.subrange(26 + 8 * k, 30 + 8 * k) =~= le32(e.physical_block)) by {
            assert forall|j: int| 0 <= j < 4 implies #[trigger] b.subrange(26 + 8 * k, 30 + 8 * k)[j] == le32(e.physical_block)[j] by {
                assert(b[26 + 8 * k + j] == eb[8 * k + 2 + j]);
                assert(eb[8 * k + 2 + j] == eb.subrange(8 * k, 8 * k + 8)[2 + j]);
            }
        }
        assert(b.subrange(30 + 8 * k, 32 + 8 * k) =~= le16(e.count)) by {
            assert forall|j: int| 0 <= j < 2 implies #[trigger] b.subrange(30 + 8 * k, 32 + 8 * k)[j] == le16(e.count)[j] by {
                assert(b[30 + 8 * k + j] == eb[8 * k + 6 + j]);
                assert(eb[8 * k + 6 + j] == eb.subrange(8 * k, 8 * k + 8)[6 + j]);
            }
        }
        lemma_get16(b, 24 + 8 * k, e.logical_block);
        lemma_get32(b, 26 + 8 * k, e.physical_block);
        lemma_get16(b, 30 + 8 * k, e.count);
    }
    assert(b.subrange(56, 60) =~= le32(i.extent_indirect));
    lemma_get32(b, 56, i.extent_indirect);
    assert(b.subrange(60, 62) =~= le16(i.last_extent_idx));
    lemma_get16(b, 60, i.last_extent_idx);
    assert(b.subrange(62, 64) =~= le16(i.extent_count));
    lemma_get16(b, 62, i.extent_count);
    assert(b.subrange(64, 112) =~= i.name@);
}

/// The 128-byte on-disk form of an inode.
pub fn inode_to_bytes(inode: &Inode) -> (b: Vec<u8>)
    requires
        inode.wf(),
    ensures
        b@ == inode_bytes(*inode),
{
    let mut b: Vec<u8> = Vec::new();
    b.push(inode.in_use);
    b.push(inode.file_type);
    push16(&mut b, inode.permissions);
    push32(&mut b, inode.size);
    push64(&mut b, inode.created_time);
    push64(&mut b, inode.modified_time);
    let ghost head = b@;
    let mut k: usize = 0;
    while k < INLINE_EXTENTS
        invariant
            inode.wf(),
            k <= INLINE_EXTENTS,
            b@ == head + extents_bytes(inode.extents@.subrange(0, k as int)),
        decreases INLINE_EXTENTS - k,
    {
        let e = inode.extents[k];
        push16(&mut b, e.logical_block);
        push32(&mut b, e.physical_block);
        push16(&mut b, e.count);
        proof {
            let s = inode.extents@.subrange(0, k + 1);
            assert(s.drop_last() =~= inode.extents@.subrange(0, k as int));
        }
        k = k + 1;
        assert(b@ =~= head + extents_bytes(inode.extents@.subrange(0, k as int)));
    }
    assert(inode.extents@.subrange(0, 4) =~= inode.extents@);
    push32(&mut b, inode.extent_indirect);
    push16(&mut b, inode.last_extent_idx);
    push16(&mut b, inode.extent_count);
    let mut i: usize = 0;
    let ghost mid = b@;
    while i < MAX_FILENAME_LEN
        invariant
            inode.wf(),
            i <= MAX_FILENAME_LEN,
            b@ == mid + inode.name@.subrange(0, i as int),
        decreases MAX_FILENAME_LEN - i,
    {
        b.push(inode.name[i]);
        i = i + 1;
        assert(b@ =~= mid + inode.name@.subrange(0, i as int));
    }
    assert(inode.name@.subrange(0, 48) =~= inode.name@);
    b.push(inode.dirty);
    push_zeros(&mut b, 15);
    assert(b@ =~= inode_bytes(*inode));
    b
}

/// The inode stored in the 128 bytes at offset `at`.
pub fn bytes_to_inode(buffer: &[u8], at: usize) -> (inode: Inode)
    requires
        at + 128 <= buffer@.len(),
    ensures
        decodes_to(buffer@, at as int, inode),
{
    let len = buffer.len();
    let mut extents: Vec<Extent> = Vec::new();
    let mut k: usize = 0;
    while k < INLINE_EXTENTS
        invariant
            at + 128 <= buffer@.len(),
            len == buffer@.len(),
            k <= INLINE_EXTENTS,
            extents@.len() == k,
            forall|j: int| 0 <= j < k ==> #[trigger] extents@[j] == (Extent {
                logical_block: get16(buffer@, at + 24 + 8 * j),
                physical_block: get32(buffer@, at + 26 + 8 * j),
                count: get16(buffer@, at + 30 + 8 * j),
            }),
        decreases INLINE_EXTENTS - k,
    {
        let o = at + 24 + 8 * k;
        extents.push(Extent { logical_block: read16(buffer, o), physical_block: read32(buffer, o + 2), count: read16(buffer, o + 6) });
        k = k + 1;
    }
    let mut name: Vec<u8> = Vec::new();
    let mut i: usize = 0;
    while i < MAX_FILENAME_LEN
        invariant
            at + 128 <= buffer@.len(),
            len == buffer@.len(),
            i <= MAX_FILENAME_LEN,
            name@ == buffer@.subrange(at + 64, at + 64 + i),
        decreases MAX_FILENAME_LEN - i,
    {
        name.push(buffer[at + 64 + i]);
        i = i + 1;
        assert(name@ =~= buffer@.subrange(at + 64, at + 64 + i));
    }
    Inode {
        in_use: buffer[at],
        file_type: buffer[at + 1],
        permissions: read16(buffer, at + 2),
        size: read32(buffer, at + 4),
        created_time: read64(buffer, at + 8),
        modified_time: read64(buffer, at + 16),
        extents,
        extent_indirect: read32(buffer, at + 56),
        last_extent_idx: read16(buffer, at + 60),
        extent_count: read16(buffer, at + 62),
        name,
        dirty: buffer[at + 112],
    }
}

/// The file system's superblock.
#[derive(Clone, Copy, PartialEq, Eq, Structural)]
pub struct Superblock {
    pub magic: u32,
    pub version: u16,
    pub total_blocks: u32,
    pub free_blocks: u32,
    pub total_inodes: u32,
    pub free_inodes: u32,
    pub first_data_block: u32,
    pub block_size: u16,
    pub dirty: u8,
}

/// The 512-byte on-disk form of a superblock, little-endian: magic,
/// version, total and free blocks, total and free inodes, first data block,
/// block size, dirty flag, then zeros.
pub open spec fn superblock_bytes(sb: Superblock) -> Seq<u8> {
    le32(sb.magic) + le16(sb.version) + le32(sb.total_blocks) + le32(sb.free_blocks) + le32(sb.total_inodes)
        + le32(sb.free_inodes) + le32(sb.first_data_block) + le16(sb.block_size) + seq![sb.dirty] + zeros(483)
}

/// The superblock stored in `b`.
pub open spec fn superblock_of(b: Seq<u8>) -> Superblock {
    Superblock {
        magic: get32(b, 0),
        version: get16(b, 4),
        total_blocks: get32(b, 6),
        free_blocks: get32(b, 10),
        total_inodes: get32(b, 14),
        free_inodes: get32(b, 18),
        first_data_block: get32(b, 22),
        block_size: get16(b, 26),
        dirty: b[28],
    }
}

/// Reading a superblock back from its on-disk form gives the same superblock.
pub proof fn lemma_superblock_round_trip(sb: Superblock)
    ensures
        superblock_bytes(sb).len() == 512,
        superblock_of(superblock_bytes(sb)) == sb,
{
    let b = superblock_bytes(sb);
    assert(b.subrange(0, 4) =~= le32(sb.magic));
    lemma_get32(b, 0, sb.magic);
    assert(b.subrange(4, 6) =~= le16(sb.version));
    lemma_get16(b, 4, sb.version);
    assert(b.subrange(6, 10) =~= le32(sb.total_blocks));
    lemma_get32(b, 6, sb.total_blocks);
    assert(b.subrange(10, 14) =~= le32(sb.free_blocks));
    lemma_get32(b, 10, sb.free_blocks);
    assert(b.subrange(14, 18) =~= le32(sb.total_inodes));
    lemma_get32(b, 14, sb.total_inodes);
    assert(b.subrange(18, 22) =~= le32(sb.free_inodes));
    lemma_get32(b, 18, sb.free_inodes);
    assert(b.subrange(22, 26) =~= le32(sb.first_data_block));
    lemma_get32(b, 22, sb.first_data_block);
    assert(b.subrange(26, 28) =~= le16(sb.block_size));
    lemma_get16(b, 26, sb.block_size);
}

/// The 512-byte on-disk form of a superblock.
pub fn superblock_to_bytes(sb: &Superblock) -> (b: Vec<u8>)
    ensures
        b@ == superblock_bytes(*sb),
{
    let mut b: Vec<u8> = Vec::new();
    push32(&mut b, sb.magic);
    push16(&mut b, sb.version);
    push32(&mut b, sb.total_blocks);
    push32(&mut b, sb.free_blocks);
    push32(&mut b, sb.total_inodes);
    push32(&mut b, sb.free_inodes);
    push32(&mut b, sb.first_data_block);
    push16(&mut b, sb.block_size);
    b.push(sb.dirty);
    push_zeros(&mut b, 483);
    assert(b@ =~= superblock_bytes(*sb));
    b
}

/// The superblock stored in a sector.
pub fn bytes_to_superblock(buffer: &[u8]) -> (sb: Superblock)
    requires
        buffer@.len() >= 29,
    ensures
        sb == superblock_of(buffer@),
{
    Superblock {
        magic: read32(buffer, 0),
        version: read16(buffer, 4),
        total_blocks: read32(buffer, 6),
        free_blocks: read32(buffer, 10),
        total_inodes: read32(buffer, 14),
        free_inodes: read32(buffer, 18),
        first_data_block: read32(buffer, 22),
        block_size: read16(buffer, 26),
        dirty: buffer[28],
    }
}

impl Extent {
    pub open spec fn empty_spec() -> Extent {
        Extent { logical_block: 0, physical_block: 0, count: 0 }
    }
}

/// A block-cache slot; `access_count == 0` marks a free slot.
pub struct CacheEntry {
    pub block_num: u32,
    pub data: Vec<u8>,
    pub dirty: bool,
    pub access_count: u32,
    pub last_access: u64,
}

impl CacheEntry {
    /// A free slot holding a zeroed block.
    pub fn empty() -> (e: Self)
        ensures
            e.block_num == 0 && !e.dirty && e.access_count == 0 && e.last_access == 0,
            e.data@ == zeros(BLOCK_SIZE as nat),
    {
        let mut data: Vec<u8> = Vec::new();
        push_zeros(&mut data, BLOCK_SIZE);
        assert(data@ =~= zeros(BLOCK_SIZE as nat));
        CacheEntry { block_num: 0, data, dirty: false, access_count: 0, last_access: 0 }
    }
}

/// How one inode's blocks have been accessed, for read-ahead.
#[derive(Clone, Copy, PartialEq, Eq, Structural)]
pub struct AccessPattern {
    pub inode: u32,
    pub last_block: u32,
    pub access_count: u32,
    pub sequential_count: u32,
}

impl AccessPattern {
    pub fn empty() -> (p: Self)
        ensures
            p == (AccessPattern { inode: 0, last_block: 0, access_count: 0, sequential_count: 0 }),
    {
        AccessPattern { inode: 0, last_block: 0, access_count: 0, sequential_count: 0 }
    }
}

/// Whether bit `i` of the bitmap is set (bit `i % 8` of byte `i / 8`).
pub open spec fn bit_set(bm: Seq<u8>, i: int) -> bool {
    bm[i / 8] & (1u8 << ((i % 8) as u8)) != 0
}

/// Whether a block counts as allocated: reserved blocks below the data area
/// and blocks past the bitmap always do, data blocks by their bit.
pub open spec fn allocated(bm: Seq<u8>, block: int) -> bool {
    if block < DATA_BLOCKS_START {
        true
    } else if (block - DATA_BLOCKS_START) / 8 >= BITMAP_BYTES {
        true
    } else {
        bit_set(bm, block - DATA_BLOCKS_START)
    }
}

/// Number of clear bits among bits `0..n`.
pub open spec fn clear_bits(bm: Seq<u8>, n: int) -> int
    decreases n,
{
    if n <= 0 {
        0
    } else {
        clear_bits(bm, n - 1) + if bit_set(bm, n - 1) { 0int } else { 1int }
    }
}

/// Number of unallocated blocks among the first `k` data blocks.
pub open spec fn free_data_blocks(bm: Seq<u8>, k: int) -> int
    decreases k,
{
    if k <= 0 {
        0
    } else {
        free_data_blocks(bm, k - 1) + if allocated(bm, DATA_BLOCKS_START + k - 1) { 0int } else { 1int }
    }
}

/// The clear bits of the bitmap are the free data blocks.
pub proof fn lemma_clear_bits_are_free_blocks(bm: Seq<u8>, k: int)
    requires
        0 <= k <= 8 * BITMAP_BYTES,
    ensures
        clear_bits(bm, k) == free_data_blocks(bm, k),
    decreases k,
{
    if k > 0 {
        lemma_clear_bits_are_free_blocks(bm, k - 1);
        assert((DATA_BLOCKS_START + k - 1 - DATA_BLOCKS_START) / 8 < BITMAP_BYTES);
    }
}

/// At most `n` of `n` bits are clear.
pub proof fn lemma_clear_bits_bound(bm: Seq<u8>, n: int)
    ensures
        0 <= clear_bits(bm, n) <= if n < 0 { 0 } else { n },
    decreases n,
{
    if n > 0 {
        lemma_clear_bits_bound(bm, n - 1);
    }
}

/// On an all-zero bitmap, such as a new file system's, every block is free.
pub proof fn lemma_fresh_bitmap_all_free(n: int)
    requires
        0 <= n <= 8 * BITMAP_BYTES,
    ensures
        clear_bits(zeros(BITMAP_BYTES as nat), n) == n,
    decreases n,
{
    if n > 0 {
        lemma_fresh_bitmap_all_free(n - 1);
        let z = zeros(BITMAP_BYTES as nat);
        let s = ((n - 1) % 8) as u8;
        assert(z[(n - 1) / 8] == 0u8);
        assert(0u8 & (1u8 << s) == 0) by (bit_vector);
        assert(!bit_set(z, n - 1));
    }
}

/// Number of data blocks the bitmap covers on an 8192-block disk.
pub open spec fn data_block_count() -> int {
    TOTAL_BLOCKS - DATA_BLOCKS_START
}

/// The bitmap with bit `i` set to `v`.
pub open spec fn with_bit(bm: Seq<u8>, i: int, v: bool) -> Seq<u8> {
    bm.update(i / 8, if v { bm[i / 8] | (1u8 << ((i % 8) as u8)) } else { bm[i / 8] & !(1u8 << ((i % 8) as u8)) })
}

proof fn lemma_with_bit(bm: Seq<u8>, i: int, v: bool, j: int)
    requires
        0 <= i < 8 * bm.len(),
        0 <= j < 8 * bm.len(),
    ensures
        bit_set(with_bit(bm, i, v), j) == if j == i { v } else { bit_set(bm, j) },
{
    let b = bm[i / 8];
    let s = (i % 8) as u8;
    let t = (j % 8) as u8;
    if j / 8 == i / 8 {
        if v {
            assert(((b | (1u8 << s)) & (1u8 << t) != 0) == (if s == t { true } else { b & (1u8 << t) != 0 })) by (bit_vector)
                requires s < 8, t < 8;
        } else {
            assert(((b & !(1u8 << s)) & (1u8 << t) != 0) == (if s == t { false } else { b & (1u8 << t) != 0 })) by (bit_vector)
                requires s < 8, t < 8;
        }
    }
}

/// Some block in `s..s + c` is allocated.
pub open spec fn has_allocated(bm: Seq<u8>, s: int, c: int) -> bool {
    exists|j: int| s <= j < s + c && allocated(bm, j)
}

/// The length of run that a search for `count` blocks looks for.
pub open spec fn wanted_run(count: usize) -> int {
    if count == 0 { 1 } else { count as int }
}

/// Reading block `b` through the cache gives `d`: the first slot that
/// holds `b` holds `d`.
pub open spec fn cache_reads_back(c: Seq<CacheEntry>, b: u32, d: Seq<u8>) -> bool {
    exists|i: int| 0 <= i < c.len() && #[trigger] hit(c[i], b) && (forall|k: int| 0 <= k < i ==> !hit(#[trigger] c[k], b))
        && c[i].data@ == d
}

/// The cache gives back one content for a block: so a read through the
/// cache after `cached_write(b, d)` returns `d`.
pub proof fn lemma_cache_reads_back_unique(c: Seq<CacheEntry>, b: u32, d1: Seq<u8>, d2: Seq<u8>)
    requires
        cache_reads_back(c, b, d1),
        cache_reads_back(c, b, d2),
    ensures
        d1 == d2,
{
    let i = choose|i: int| 0 <= i < c.len() && #[trigger] hit(c[i], b) && (forall|k: int| 0 <= k < i ==> !hit(#[trigger] c[k], b))
        && c[i].data@ == d1;
    let j = choose|j: int| 0 <= j < c.len() && #[trigger] hit(c[j], b) && (forall|k: int| 0 <= k < j ==> !hit(#[trigger] c[k], b))
        && c[j].data@ == d2;
    if i < j {
        assert(!hit(c[i], b));
    }
    if j < i {
        assert(!hit(c[j], b));
    }
}

/// The slot caches block `b`.
pub open spec fn hit(e: CacheEntry, b: u32) -> bool {
    e.block_num == b && e.access_count > 0
}

/// The slot holds a block not yet written back.
pub open spec fn needs_flush(e: CacheEntry) -> bool {
    e.dirty && e.access_count > 0
}

/// Index of the first free slot, or the length when none is free.
pub open spec fn first_empty(c: Seq<CacheEntry>) -> int
    decreases c.len(),
{
    if c.len() == 0 {
        0
    } else if c[0].access_count == 0 {
        0
    } else {
        1 + first_empty(c.drop_first())
    }
}

proof fn lemma_first_empty(c: Seq<CacheEntry>, k: int)
    requires
        0 <= k <= c.len(),
        forall|j: int| 0 <= j < k ==> (#[trigger] c[j]).access_count != 0,
        k == c.len() || c[k].access_count == 0,
    ensures
        first_empty(c) == k,
    decreases c.len(),
{
    if c.len() > 0 && k > 0 {
        assert forall|j: int| 0 <= j < k - 1 implies (#[trigger] c.drop_first()[j]).access_count != 0 by {
            assert(c.drop_first()[j] == c[j + 1]);
        }
        lemma_first_empty(c.drop_first(), k - 1);
    }
}

/// Index of the first slot with the smallest access time.
pub open spec fn lru_slot(c: Seq<CacheEntry>) -> int
    decreases c.len(),
{
    if c.len() <= 1 {
        0
    } else {
        let j = lru_slot(c.drop_last());
        if c.last().last_access < c[j].last_access { c.len() - 1 } else { j }
    }
}

/// Where a new block goes: the first free slot, else the least recently
/// used one.
pub open spec fn victim_slot(c: Seq<CacheEntry>) -> int {
    if first_empty(c) < c.len() { first_empty(c) } else { lru_slot(c) }
}

/// Index of the first pattern tracking `inode`, or 16 when none does.
pub open spec fn first_pattern(ps: Seq<AccessPattern>, inode: u32) -> int
    decreases ps.len(),
{
    if ps.len() == 0 {
        0
    } else if ps[0].inode == inode {
        0
    } else {
        1 + first_pattern(ps.drop_first(), inode)
    }
}

proof fn lemma_first_pattern(ps: Seq<AccessPattern>, inode: u32, k: int)
    requires
        0 <= k <= ps.len(),
        forall|j: int| 0 <= j < k ==> (#[trigger] ps[j]).inode != inode,
        k == ps.len() || ps[k].inode == inode,
    ensures
        first_pattern(ps, inode) == k,
    decreases ps.len(),
{
    if ps.len() > 0 && k > 0 {
        assert forall|j: int| 0 <= j < k - 1 implies (#[trigger] ps.drop_first()[j]).inode != inode by {
            assert(ps.drop_first()[j] == ps[j + 1]);
        }
        lemma_first_pattern(ps.drop_first(), inode, k - 1);
    }
}

/// Index of the first pattern with the fewest accesses.
pub open spec fn least_accessed(ps: Seq<AccessPattern>) -> int
    decreases ps.len(),
{
    if ps.len() <= 1 {
        0
    } else {
        let j = least_accessed(ps.drop_last());
        if ps.last().access_count < ps[j].access_count { ps.len() - 1 } else { j }
    }
}

/// The read-ahead block for `inode`: after the last block of the first
/// pattern tracking it with more than two sequential accesses.
pub open spec fn predicted(ps: Seq<AccessPattern>, inode: u32) -> Option<u32>
    decreases ps.len(),
{
    if ps.len() == 0 {
        None
    } else if ps[0].inode == inode && ps[0].sequential_count > 2 {
        Some(ps[0].last_block.wrapping_add(1))
    } else {
        predicted(ps.drop_first(), inode)
    }
}

/// A copy of `v[lo..hi]`.
pub fn copy_range(v: &Vec<u8>, lo: usize, hi: usize) -> (r: Vec<u8>)
    requires
        lo <= hi <= v@.len(),
    ensures
        r@ == v@.subrange(lo as int, hi as int),
{
    let mut r: Vec<u8> = Vec::new();
    let mut i: usize = lo;
    while i < hi
        invariant
            lo <= i <= hi,
            hi <= v@.len(),
            r@ == v@.subrange(lo as int, i as int),
        decreases hi - i,
    {
        r.push(v[i]);
        i = i + 1;
        assert(r@ =~= v@.subrange(lo as int, i as int));
    }
    r
}

/// The file system's in-memory state: superblock, block bitmap, block
/// cache and read-ahead patterns.
pub struct PsychicFs {
    pub mounted: bool,
    pub superblock: Superblock,
    pub block_bitmap: Vec<u8>,
    pub bitmap_dirty: bool,
    pub superblock_dirty: bool,
    pub cache: Vec<CacheEntry>,
    pub cache_hits: u64,
    pub cache_misses: u64,
    pub patterns: Vec<AccessPattern>,
}

impl PsychicFs {
    /// A 1024-byte bitmap, 32 cache slots of 512-byte blocks, 16 patterns.
    pub open spec fn wf(&self) -> bool {
        &&& self.block_bitmap@.len() == BITMAP_BYTES
        &&& self.cache@.len() == CACHE_SIZE
        &&& forall|i: int| 0 <= i < CACHE_SIZE ==> (#[trigger] self.cache@[i]).data@.len() == BLOCK_SIZE
        &&& self.patterns@.len() == 16
    }

    /// An unmounted file system with an all-free bitmap, an empty cache and
    /// no patterns.
    pub fn new() -> (fs: Self)
        ensures
            fs.wf(),
            !fs.mounted && !fs.bitmap_dirty && !fs.superblock_dirty,
            fs.superblock == (Superblock { magic: 0, version: 0, total_blocks: 0, free_blocks: 0, total_inodes: 0,
                free_inodes: 0, first_data_block: 0, block_size: 0, dirty: 0 }),
            fs.block_bitmap@ == zeros(BITMAP_BYTES as nat),
            forall|i: int| 0 <= i < CACHE_SIZE ==> (#[trigger] fs.cache@[i]).access_count == 0 && !fs.cache@[i].dirty,
            fs.cache_hits == 0 && fs.cache_misses == 0,
            forall|i: int| 0 <= i < 16 ==> #[trigger] fs.patterns@[i] == (AccessPattern { inode: 0, last_block: 0, access_count: 0, sequential_count: 0 }),
    {
        let mut bm: Vec<u8> = Vec::new();
        push_zeros(&mut bm, BITMAP_BYTES);
        assert(bm@ =~= zeros(BITMAP_BYTES as nat));
        let mut cache: Vec<CacheEntry> = Vec::new();
        let mut i: usize = 0;
        while i < CACHE_SIZE
            invariant
                i <= CACHE_SIZE,
                cache@.len() == i,
                forall|k: int| 0 <= k < i ==> (#[trigger] cache@[k]).data@.len() == BLOCK_SIZE && cache@[k].access_count == 0 && !cache@[k].dirty,
            decreases CACHE_SIZE - i,
        {
            cache.push(CacheEntry::empty());
            i = i + 1;
        }
        let mut patterns: Vec<AccessPattern> = Vec::new();
        let mut j: usize = 0;
        while j < 16
            invariant
                j <= 16,
                patterns@.len() == j,
                forall|k: int| 0 <= k < j ==> #[trigger] patterns@[k] == (AccessPattern { inode: 0, last_block: 0, access_count: 0, sequential_count: 0 }),
            decreases 16 - j,
        {
            patterns.push(AccessPattern::empty());
            j = j + 1;
        }
        PsychicFs {
            mounted: false,
            superblock: Superblock { magic: 0, version: 0, total_blocks: 0, free_blocks: 0, total_inodes: 0,
                free_inodes: 0, first_data_block: 0, block_size: 0, dirty: 0 },
            block_bitmap: bm,
            bitmap_dirty: false,
            superblock_dirty: false,
            cache,
            cache_hits: 0,
            cache_misses: 0,
            patterns,
        }
    }

    /// Whether a block is in use (reserved blocks and blocks past the bitmap
    /// always are).
    pub fn is_block_allocated(&self, block_num: u32) -> (r: bool)
        requires
            self.wf(),
        ensures
            r == allocated(self.block_bitmap@, block_num as int),
    {
        if block_num < DATA_BLOCKS_START as u32 {
            return true;
        }
        let idx = (block_num - DATA_BLOCKS_START as u32) as usize;
        let byte_idx = idx / 8;
        let bit_idx = idx % 8;
        if byte_idx >= BITMAP_BYTES {
            return true;
        }
        (self.block_bitmap[byte_idx] & (1u8 << (bit_idx as u8))) != 0
    }

    /// Number of free data blocks on an 8192-block disk.
    pub fn count_free_blocks(&self) -> (n: u32)
        requires
            self.wf(),
        ensures
            n == clear_bits(self.block_bitmap@, data_block_count()),
            n == free_data_blocks(self.block_bitmap@, data_block_count()),
            n <= data_block_count(),
    {
        proof {
            lemma_clear_bits_bound(self.block_bitmap@, data_block_count());
            lemma_clear_bits_are_free_blocks(self.block_bitmap@, data_block_count());
        }
        let mut count: u32 = 0;
        let max_blocks: usize = (TOTAL_BLOCKS as usize) - (DATA_BLOCKS_START as usize);
        let mut i: usize = 0;
        while i < max_blocks
            invariant
                self.wf(),
                max_blocks == data_block_count(),
                i <= max_blocks,
                count == clear_bits(self.block_bitmap@, i as int),
                count <= i,
            decreases max_blocks - i,
        {
            if (self.block_bitmap[i / 8] & (1u8 << ((i % 8) as u8))) == 0 {
                count = count + 1;
            }
            i = i + 1;
        }
        count
    }

    /// Marks the bitmap and the superblock as needing a write.
    pub fn mark_dirty(&mut self)
        ensures
            *final(self) == (PsychicFs { bitmap_dirty: true, superblock_dirty: true, ..*old(self) }),
    {
        self.bitmap_dirty = true;
        self.superblock_dirty = true;
    }

    /// Takes the first free data block: sets its bit, counts it off the
    /// superblock's free blocks and marks the metadata dirty.
    pub fn allocate_block(&mut self) -> (r: Option<u32>)
        requires
            old(self).wf(),
        ensures
            final(self).wf(),
            r is None <==> forall|j: int| 0 <= j < data_block_count() ==> bit_set(old(self).block_bitmap@, j),
            r is None ==> *final(self) == *old(self),
            r matches Some(b) ==> {
                &&& DATA_BLOCKS_START <= b < TOTAL_BLOCKS
                &&& !bit_set(old(self).block_bitmap@, b - DATA_BLOCKS_START)
                &&& forall|j: int| 0 <= j < b - DATA_BLOCKS_START ==> bit_set(old(self).block_bitmap@, j)
                &&& final(self).block_bitmap@ == with_bit(old(self).block_bitmap@, b - DATA_BLOCKS_START, true)
                &&& final(self).superblock == (Superblock {
                    free_blocks: if old(self).superblock.free_blocks > 0 { (old(self).superblock.free_blocks - 1) as u32 } else { 0 },
                    ..old(self).superblock })
                &&& final(self).bitmap_dirty && final(self).superblock_dirty
                &&& final(self).same_except_metadata(old(self))
            },
    {
        let max_blocks: usize = (TOTAL_BLOCKS as usize) - (DATA_BLOCKS_START as usize);
        let mut i: usize = 0;
        while i < max_blocks
            invariant
                self.wf(),
                *self == *old(self),
                max_blocks == data_block_count(),
                i <= max_blocks,
                forall|j: int| 0 <= j < i ==> bit_set(self.block_bitmap@, j),
            decreases max_blocks - i,
        {
            let byte_idx = i / 8;
            let mask: u8 = 1u8 << ((i % 8) as u8);
            if self.block_bitmap[byte_idx] & mask == 0 {
                assert(!bit_set(old(self).block_bitmap@, i as int));
                let v = self.block_bitmap[byte_idx] | mask;
                self.block_bitmap.set(byte_idx, v);
                if self.superblock.free_blocks > 0 {
                    self.superblock.free_blocks = self.superblock.free_blocks - 1;
                }
                self.mark_dirty();
                return Some((DATA_BLOCKS_START as u32) + (i as u32));
            }
            i = i + 1;
        }
        None
    }

    /// Frees a data block whose bit is set: clears it, counts it back
    /// (saturating) and marks the metadata dirty. Reserved blocks, blocks
    /// past the bitmap and free blocks are left alone.
    pub fn free_block(&mut self, block_num: u32)
        requires
            old(self).wf(),
        ensures
            final(self).wf(),
            !allocated(old(self).block_bitmap@, block_num as int) || block_num < DATA_BLOCKS_START
                || (block_num - DATA_BLOCKS_START) / 8 >= BITMAP_BYTES ==> *final(self) == *old(self),
            DATA_BLOCKS_START <= block_num && (block_num - DATA_BLOCKS_START) / 8 < BITMAP_BYTES
                && allocated(old(self).block_bitmap@, block_num as int) ==> {
                &&& final(self).block_bitmap@ == with_bit(old(self).block_bitmap@, block_num - DATA_BLOCKS_START, false)
                &&& final(self).superblock == (Superblock {
                    free_blocks: if old(self).superblock.free_blocks < u32::MAX { (old(self).superblock.free_blocks + 1) as u32 } else { u32::MAX },
                    ..old(self).superblock })
                &&& final(self).bitmap_dirty && final(self).superblock_dirty
                &&& final(self).same_except_metadata(old(self))
            },
    {
        if block_num < DATA_BLOCKS_START as u32 {
            return;
        }
        let idx = (block_num - DATA_BLOCKS_START as u32) as usize;
        let byte_idx = idx / 8;
        let bit_idx = idx % 8;
        if byte_idx < BITMAP_BYTES {
            let mask: u8 = 1u8 << (bit_idx as u8);
            if self.block_bitmap[byte_idx] & mask == 0 {
                return;
            }
            let v = self.block_bitmap[byte_idx] & !mask;
            self.block_bitmap.set(byte_idx, v);
            self.superblock.free_blocks = self.superblock.free_blocks.saturating_add(1);
            self.mark_dirty();
        }
    }

    /// Every field but the superblock, the bitmap and their dirty flags equal.
    pub open spec fn same_except_metadata(&self, o: &PsychicFs) -> bool {
        &&& self.mounted == o.mounted
        &&& self.cache@ == o.cache@ && self.cache_hits == o.cache_hits && self.cache_misses == o.cache_misses
        &&& self.patterns@ == o.patterns@
    }

    /// The first run of `max(count, 1)` free blocks among blocks
    /// `128..total_blocks`, by its start.
    pub fn find_contiguous_blocks(&self, count: usize) -> (r: Option<u32>)
        requires
            self.wf(),
        ensures
            ({
                let c = wanted_run(count);
                let total = self.superblock.total_blocks as int;
                &&& r is None ==> forall|s: int| DATA_BLOCKS_START <= s && s + c <= total ==> #[trigger] has_allocated(self.block_bitmap@, s, c)
                &&& r matches Some(s) ==> {
                    &&& DATA_BLOCKS_START <= s && s + c <= total
                    &&& forall|j: int| s <= j < s + c ==> !allocated(self.block_bitmap@, j)
                    &&& forall|t: int| DATA_BLOCKS_START <= t < s ==> #[trigger] has_allocated(self.block_bitmap@, t, c)
                }
            }),
    {
        let ghost c: int = wanted_run(count);
        let ghost bm = self.block_bitmap@;
        let total = self.superblock.total_blocks;
        let mut run_start: u32 = 0;
        let mut run_len: usize = 0;
        let mut block: u32 = DATA_BLOCKS_START as u32;
        while block < total
            invariant
                self.wf(),
                bm == self.block_bitmap@,
                c == wanted_run(count),
                total == self.superblock.total_blocks,
                DATA_BLOCKS_START <= block,
                block <= total || total < DATA_BLOCKS_START,
                run_len <= block - DATA_BLOCKS_START,
                run_len < c,
                forall|j: int| block - run_len <= j < block ==> !allocated(bm, j),
                block - run_len == DATA_BLOCKS_START || allocated(bm, block - run_len - 1),
                run_len > 0 ==> run_start == block - run_len,
                forall|s: int| DATA_BLOCKS_START <= s && s + c <= block ==> #[trigger] has_allocated(bm, s, c),
            decreases total - block,
        {
            if !self.is_block_allocated(block) {
                if run_len == 0 {
                    run_start = block;
                }
                run_len = run_len + 1;
                if run_len >= count {
                    assert forall|t: int| DATA_BLOCKS_START <= t < run_start implies #[trigger] has_allocated(bm, t, c) by {
                        assert(t + c <= block);
                    }
                    return Some(run_start);
                }
                assert forall|s: int| DATA_BLOCKS_START <= s && s + c <= block + 1 implies #[trigger] has_allocated(bm, s, c) by {
                    if s + c == block + 1 {
                        let w = block - run_len;
                        assert(allocated(bm, w) && s <= w < s + c);
                    }
                }
            } else {
                run_len = 0;
                assert forall|s: int| DATA_BLOCKS_START <= s && s + c <= block + 1 implies #[trigger] has_allocated(bm, s, c) by {
                    if s + c == block + 1 {
                        assert(allocated(bm, block as int) && s <= block < s + c);
                    }
                }
            }
            block = block + 1;
        }
        None
    }

    /// Marks blocks `start..start + count` as used (those inside the data
    /// area) and counts them off the free blocks, saturating at zero.
    pub fn allocate_contiguous_blocks(&mut self, start: u32, count: u16)
        requires
            old(self).wf(),
        ensures
            final(self).wf(),
            forall|j: int| 0 <= j < 8 * BITMAP_BYTES ==> #[trigger] bit_set(final(self).block_bitmap@, j) ==
                (bit_set(old(self).block_bitmap@, j) || start <= DATA_BLOCKS_START + j < start + count),
            final(self).superblock == (Superblock {
                free_blocks: if old(self).superblock.free_blocks >= count { (old(self).superblock.free_blocks - count) as u32 } else { 0 },
                ..old(self).superblock }),
            final(self).same_except_metadata(old(self)),
            final(self).bitmap_dirty == old(self).bitmap_dirty && final(self).superblock_dirty == old(self).superblock_dirty,
    {
        let mut i: u32 = 0;
        while i < count as u32
            invariant
                self.wf(),
                i <= count,
                forall|j: int| 0 <= j < 8 * BITMAP_BYTES ==> #[trigger] bit_set(self.block_bitmap@, j) ==
                    (bit_set(old(self).block_bitmap@, j) || (start <= DATA_BLOCKS_START + j < start + i)),
                self.superblock == old(self).superblock,
                self.same_except_metadata(old(self)),
                self.bitmap_dirty == old(self).bitmap_dirty && self.superblock_dirty == old(self).superblock_dirty,
            decreases count - i,
        {
            let b: u64 = start as u64 + i as u64;
            if b >= DATA_BLOCKS_START && b - DATA_BLOCKS_START < 8 * (BITMAP_BYTES as u64) {
                let k = (b - DATA_BLOCKS_START) as usize;
                let ghost before = self.block_bitmap@;
                let v = self.block_bitmap[k / 8] | (1u8 << ((k % 8) as u8));
                self.block_bitmap.set(k / 8, v);
                proof {
                    assert(self.block_bitmap@ == with_bit(before, k as int, true));
                    assert forall|j: int| 0 <= j < 8 * BITMAP_BYTES implies #[trigger] bit_set(self.block_bitmap@, j) ==
                        (bit_set(old(self).block_bitmap@, j) || (start <= DATA_BLOCKS_START + j < start + i + 1)) by {
                        lemma_with_bit(before, k as int, true, j);
                    }
                }
            } else {
                assert forall|j: int| 0 <= j < 8 * BITMAP_BYTES implies #[trigger] bit_set(self.block_bitmap@, j) ==
                    (bit_set(old(self).block_bitmap@, j) || (start <= DATA_BLOCKS_START + j < start + i + 1)) by {}
            }
            i = i + 1;
        }
        self.superblock.free_blocks = self.superblock.free_blocks.saturating_sub(count as u32);
    }

    /// Reads a block through the cache. On a hit the slot's counters are
    /// updated (`now` is the access time) and its data returned; on a miss
    /// the miss is counted and `None` returned, and the caller reads the
    /// disk and hands the block to `cache_insert`.
    pub fn cached_read(&mut self, block_num: u32, now: u64) -> (r: Option<Vec<u8>>)
        requires
            old(self).wf(),
        ensures
            final(self).wf(),
            r is Some <==> exists|i: int| 0 <= i < CACHE_SIZE && #[trigger] hit(old(self).cache@[i], block_num),
            r matches Some(d) ==> cache_reads_back(old(self).cache@, block_num, d@),
            forall|d: Seq<u8>| #[trigger] cache_reads_back(old(self).cache@, block_num, d) ==> (r matches Some(x) && x@ == d),
            r is None ==> *final(self) == (PsychicFs { cache_misses: old(self).cache_misses.wrapping_add(1), ..*old(self) }),
            r matches Some(d) ==> exists|i: int| 0 <= i < CACHE_SIZE && #[trigger] hit(old(self).cache@[i], block_num) && {
                &&& forall|k: int| 0 <= k < i ==> !hit(#[trigger] old(self).cache@[k], block_num)
                &&& d@ == old(self).cache@[i].data@
                &&& final(self).cache@ == old(self).cache@.update(i, CacheEntry {
                    access_count: old(self).cache@[i].access_count.wrapping_add(1),
                    last_access: now,
                    ..old(self).cache@[i] })
                &&& *final(self) == (PsychicFs { cache: final(self).cache, cache_hits: old(self).cache_hits.wrapping_add(1), ..*old(self) })
            },
    {
        let mut i: usize = 0;
        while i < CACHE_SIZE
            invariant
                self.wf(),
                *self == *old(self),
                i <= CACHE_SIZE,
                forall|k: int| 0 <= k < i ==> !hit(#[trigger] self.cache@[k], block_num),
            decreases CACHE_SIZE - i,
        {
            if self.cache[i].block_num == block_num && self.cache[i].access_count > 0 {
                assert(hit(old(self).cache@[i as int], block_num));
                let d = vstd::slice::slice_to_vec(self.cache[i].data.as_slice());
                let ghost before = self.cache@;
                self.cache[i].access_count = self.cache[i].access_count.wrapping_add(1);
                self.cache[i].last_access = now;
                self.cache_hits = self.cache_hits.wrapping_add(1);
                proof {
                    assert(self.cache@ =~= before.update(i as int, CacheEntry {
                        access_count: before[i as int].access_count.wrapping_add(1),
                        last_access: now,
                        ..before[i as int] }));
                    assert forall|k: int| 0 <= k < CACHE_SIZE implies (#[trigger] self.cache@[k]).data@.len() == BLOCK_SIZE by {
                        if k != i { assert(self.cache@[k] == before[k]); }
                    }
                    assert(cache_reads_back(old(self).cache@, block_num, d@));
                    assert forall|d2: Seq<u8>| #[trigger] cache_reads_back(old(self).cache@, block_num, d2) implies d@ == d2 by {
                        lemma_cache_reads_back_unique(old(self).cache@, block_num, d@, d2);
                    }
                }
                return Some(d);
            }
            i = i + 1;
        }
        self.cache_misses = self.cache_misses.wrapping_add(1);
        None
    }

    /// The slot a new block goes to: the first free one, else the first of
    /// the least recently used.
    fn victim(&self) -> (v: usize)
        requires
            self.wf(),
        ensures
            v == victim_slot(self.cache@),
            v < CACHE_SIZE,
    {
        let mut min_access: u64 = u64::MAX;
        let mut min_idx: usize = 0;
        let mut i: usize = 0;
        while i < CACHE_SIZE
            invariant
                self.wf(),
                i <= CACHE_SIZE,
                forall|k: int| 0 <= k < i ==> (#[trigger] self.cache@[k]).access_count != 0,
                i == 0 ==> min_idx == 0 && min_access == u64::MAX,
                i > 0 ==> min_idx == lru_slot(self.cache@.subrange(0, i as int)) && min_access == self.cache@[min_idx as int].last_access,
                i > 0 ==> min_idx < i,
                min_idx < CACHE_SIZE,
            decreases CACHE_SIZE - i,
        {
            if self.cache[i].access_count == 0 {
                proof { lemma_first_empty(self.cache@, i as int); }
                return i;
            }
            proof {
                let p = self.cache@.subrange(0, i + 1);
                assert(p.drop_last() =~= self.cache@.subrange(0, i as int));
                if i > 0 {
                    assert(p[min_idx as int] == self.cache@[min_idx as int]);
                }
            }
            if self.cache[i].last_access < min_access {
                min_access = self.cache[i].last_access;
                min_idx = i;
            }
            i = i + 1;
        }
        proof {
            lemma_first_empty(self.cache@, CACHE_SIZE as int);
            assert(self.cache@.subrange(0, CACHE_SIZE as int) =~= self.cache@);
        }
        min_idx
    }

    /// Puts a block in the cache, in the slot `victim_slot` picks. When that
    /// slot held a dirty block, returns it for writing back.
    pub fn cache_insert(&mut self, block_num: u32, data: &[u8], dirty: bool, now: u64) -> (evicted: Option<(u32, Vec<u8>)>)
        requires
            old(self).wf(),
            data@.len() == BLOCK_SIZE,
        ensures
            final(self).wf(),
            ({
                let v = victim_slot(old(self).cache@);
                let e = old(self).cache@[v];
                &&& 0 <= v < CACHE_SIZE
                &&& final(self).cache@.len() == CACHE_SIZE
                &&& forall|k: int| 0 <= k < CACHE_SIZE && k != v ==> #[trigger] final(self).cache@[k] == old(self).cache@[k]
                &&& final(self).cache@[v].block_num == block_num && final(self).cache@[v].data@ == data@
                &&& final(self).cache@[v].dirty == dirty && final(self).cache@[v].access_count == 1
                &&& final(self).cache@[v].last_access == now
                &&& (e.dirty && e.access_count > 0) ==> (evicted matches Some((b, d)) && b == e.block_num && d@ == e.data@)
                &&& !(e.dirty && e.access_count > 0) ==> evicted is None
            }),
            *final(self) == (PsychicFs { cache: final(self).cache, ..*old(self) }),
    {
        let v = self.victim();
        let evicted = if self.cache[v].dirty && self.cache[v].access_count > 0 {
            Some((self.cache[v].block_num, vstd::slice::slice_to_vec(self.cache[v].data.as_slice())))
        } else {
            None
        };
        let ghost before = self.cache@;
        let entry = CacheEntry { block_num, data: vstd::slice::slice_to_vec(data), dirty, access_count: 1, last_access: now };
        self.cache.set(v, entry);
        proof {
            assert forall|k: int| 0 <= k < CACHE_SIZE implies (#[trigger] self.cache@[k]).data@.len() == BLOCK_SIZE by {
                if k != v { assert(self.cache@[k] == before[k]); }
            }
        }
        evicted
    }

    /// Writes a block through the cache: a cached copy is updated and marked
    /// dirty; otherwise the block is inserted dirty, possibly evicting a
    /// dirty block, which is returned for writing back.
    pub fn cached_write(&mut self, block_num: u32, data: &[u8], now: u64) -> (evicted: Option<(u32, Vec<u8>)>)
        requires
            old(self).wf(),
            data@.len() == BLOCK_SIZE,
        ensures
            final(self).wf(),
            *final(self) == (PsychicFs { cache: final(self).cache, ..*old(self) }),
            (exists|i: int| 0 <= i < CACHE_SIZE && #[trigger] hit(old(self).cache@[i], block_num)) ==> evicted is None
                && exists|i: int| 0 <= i < CACHE_SIZE && #[trigger] hit(old(self).cache@[i], block_num) && {
                &&& forall|k: int| 0 <= k < i ==> !hit(#[trigger] old(self).cache@[k], block_num)
                &&& forall|k: int| 0 <= k < CACHE_SIZE && k != i ==> #[trigger] final(self).cache@[k] == old(self).cache@[k]
                &&& final(self).cache@[i].data@ == data@ && final(self).cache@[i].dirty
                &&& final(self).cache@[i].block_num == block_num
                &&& final(self).cache@[i].access_count == old(self).cache@[i].access_count.wrapping_add(1)
                &&& final(self).cache@[i].last_access == now
            },
            (forall|i: int| 0 <= i < CACHE_SIZE ==> !#[trigger] hit(old(self).cache@[i], block_num)) ==> {
                let v = victim_slot(old(self).cache@);
                let e = old(self).cache@[v];
                &&& forall|k: int| 0 <= k < CACHE_SIZE && k != v ==> #[trigger] final(self).cache@[k] == old(self).cache@[k]
                &&& final(self).cache@[v].block_num == block_num && final(self).cache@[v].data@ == data@
                &&& final(self).cache@[v].dirty && final(self).cache@[v].access_count == 1
                &&& final(self).cache@[v].last_access == now
                &&& (e.dirty && e.access_count > 0) ==> (evicted matches Some((b, d)) && b == e.block_num && d@ == e.data@)
                &&& !(e.dirty && e.access_count > 0) ==> evicted is None
            },
            (forall|i: int| 0 <= i < CACHE_SIZE && #[trigger] hit(old(self).cache@[i], block_num)
                ==> old(self).cache@[i].access_count < u32::MAX) ==> cache_reads_back(final(self).cache@, block_num, data@),
    {
        let mut i: usize = 0;
        while i < CACHE_SIZE
            invariant
                self.wf(),
                *self == *old(self),
                data@.len() == BLOCK_SIZE,
                i <= CACHE_SIZE,
                forall|k: int| 0 <= k < i ==> !hit(#[trigger] self.cache@[k], block_num),
            decreases CACHE_SIZE - i,
        {
            if self.cache[i].block_num == block_num && self.cache[i].access_count > 0 {
                assert(hit(old(self).cache@[i as int], block_num));
                let ghost before = self.cache@;
                let copy = vstd::slice::slice_to_vec(data);
                let e = CacheEntry {
                    block_num,
                    data: copy,
                    dirty: true,
                    access_count: self.cache[i].access_count.wrapping_add(1),
                    last_access: now,
                };
                self.cache.set(i, e);
                proof {
                    assert forall|k: int| 0 <= k < CACHE_SIZE implies (#[trigger] self.cache@[k]).data@.len() == BLOCK_SIZE by {
                        if k != i { assert(self.cache@[k] == before[k]); }
                    }
                    assert forall|k: int| 0 <= k < i implies !hit(#[trigger] self.cache@[k], block_num) by {
                        assert(self.cache@[k] == before[k]);
                    }
                    if (forall|j: int| 0 <= j < CACHE_SIZE && #[trigger] hit(old(self).cache@[j], block_num)
                        ==> old(self).cache@[j].access_count < u32::MAX) {
                        assert(hit(self.cache@[i as int], block_num));
                    }
                }
                return None;
            }
            i = i + 1;
        }
        let r = self.cache_insert(block_num, data, true, now);
        proof {
            let v = victim_slot(old(self).cache@);
            assert(hit(self.cache@[v], block_num));
            assert forall|k: int| 0 <= k < v implies !hit(#[trigger] self.cache@[k], block_num) by {
                assert(self.cache@[k] == old(self).cache@[k]);
            }
        }
        r
    }

    /// Indices of the cache slots holding dirty blocks, in order.
    pub fn dirty_entries(&self) -> (r: Vec<usize>)
        requires
            self.wf(),
        ensures
            forall|k: int| 0 <= k < r@.len() ==> #[trigger] r@[k] < CACHE_SIZE,
            forall|k: int| 0 <= k < r@.len() ==> needs_flush(self.cache@[#[trigger] r@[k] as int]),
            forall|i: int| 0 <= i < CACHE_SIZE && #[trigger] needs_flush(self.cache@[i]) ==> r@.contains(i as usize),
            forall|a: int, b: int| 0 <= a < b < r@.len() ==> r@[a] < r@[b],
    {
        let mut r: Vec<usize> = Vec::new();
        let mut i: usize = 0;
        while i < CACHE_SIZE
            invariant
                self.wf(),
                i <= CACHE_SIZE,
                forall|k: int| 0 <= k < r@.len() ==> #[trigger] r@[k] < i,
                forall|k: int| 0 <= k < r@.len() ==> needs_flush(self.cache@[#[trigger] r@[k] as int]),
                forall|j: int| 0 <= j < i && #[trigger] needs_flush(self.cache@[j]) ==> r@.contains(j as usize),
                forall|a: int, b: int| 0 <= a < b < r@.len() ==> r@[a] < r@[b],
            decreases CACHE_SIZE - i,
        {
            let ghost old_r = r@;
            if self.cache[i].dirty && self.cache[i].access_count > 0 {
                r.push(i);
                proof {
                    assert(r@[r@.len() - 1] == i);
                    assert forall|k: int| 0 <= k < old_r.len() implies r@[k] == old_r[k] by {}
                    assert forall|j: int| 0 <= j < i + 1 && #[trigger] needs_flush(self.cache@[j]) implies r@.contains(j as usize) by {
                        if j < i {
                            let w = choose|w: int| 0 <= w < old_r.len() && old_r[w] == j as usize;
                            assert(r@[w] == j as usize);
                        } else {
                            assert(r@[r@.len() - 1] == j as usize);
                        }
                    }
                }
            }
            i = i + 1;
        }
        r
    }

    /// Records the outcome of writing back the dirty slots: `written[i]`
    /// tells whether slot `i` reached the disk; those slots become clean.
    /// True when every dirty slot was written.
    pub fn flush_cache(&mut self, written: &[bool]) -> (ok: bool)
        requires
            old(self).wf(),
            written@.len() == CACHE_SIZE,
        ensures
            final(self).wf(),
            *final(self) == (PsychicFs { cache: final(self).cache, ..*old(self) }),
            forall|i: int| 0 <= i < CACHE_SIZE ==> #[trigger] final(self).cache@[i] == if needs_flush(old(self).cache@[i]) && written@[i] {
                CacheEntry { dirty: false, ..old(self).cache@[i] }
            } else {
                old(self).cache@[i]
            },
            ok == forall|i: int| 0 <= i < CACHE_SIZE && #[trigger] needs_flush(old(self).cache@[i]) ==> written@[i],
    {
        let mut ok = true;
        let mut i: usize = 0;
        while i < CACHE_SIZE
            invariant
                self.wf(),
                written@.len() == CACHE_SIZE,
                i <= CACHE_SIZE,
                *self == (PsychicFs { cache: self.cache, ..*old(self) }),
                self.cache@.len() == CACHE_SIZE,
                forall|k: int| 0 <= k < i ==> #[trigger] self.cache@[k] == if needs_flush(old(self).cache@[k]) && written@[k] {
                    CacheEntry { dirty: false, ..old(self).cache@[k] }
                } else {
                    old(self).cache@[k]
                },
                forall|k: int| i <= k < CACHE_SIZE ==> #[trigger] self.cache@[k] == old(self).cache@[k],
                ok == forall|k: int| 0 <= k < i && #[trigger] needs_flush(old(self).cache@[k]) ==> written@[k],
            decreases CACHE_SIZE - i,
        {
            if self.cache[i].dirty && self.cache[i].access_count > 0 {
                if written[i] {
                    let ghost before = self.cache@;
                    self.cache[i].dirty = false;
                    proof {
                        assert forall|k: int| 0 <= k < CACHE_SIZE && k != i implies #[trigger] self.cache@[k] == before[k] by {}
                    }
                } else {
                    ok = false;
                }
            }
            proof {
                if ok {
                    assert forall|k: int| 0 <= k < i + 1 && #[trigger] needs_flush(old(self).cache@[k]) implies written@[k] by {}
                } else if needs_flush(old(self).cache@[i as int]) && !written@[i as int] {
                    assert(!(forall|k: int| 0 <= k < i + 1 && #[trigger] needs_flush(old(self).cache@[k]) ==> written@[k]));
                } else {
                    let w = choose|k: int| 0 <= k < i && #[trigger] needs_flush(old(self).cache@[k]) && !written@[k];
                    assert(!(forall|k: int| 0 <= k < i + 1 && #[trigger] needs_flush(old(self).cache@[k]) ==> written@[k]));
                }
            }
            i = i + 1;
        }
        ok
    }

    /// Notes an access to `block` of `inode`: a tracked inode counts the
    /// access (and a sequential one when the block follows the last);
    /// otherwise the inode replaces the first least-accessed pattern.
    pub fn record_access(&mut self, inode: u32, block: u32)
        requires
            old(self).wf(),
        ensures
            final(self).wf(),
            *final(self) == (PsychicFs { patterns: final(self).patterns, ..*old(self) }),
            ({
                let ps = old(self).patterns@;
                let i = first_pattern(ps, inode);
                &&& i < 16 ==> final(self).patterns@ == ps.update(i, AccessPattern {
                    inode,
                    last_block: block,
                    access_count: ps[i].access_count.wrapping_add(1),
                    sequential_count: if block == ps[i].last_block + 1 { ps[i].sequential_count.wrapping_add(1) } else { ps[i].sequential_count },
                })
                &&& i == 16 ==> final(self).patterns@ == ps.update(least_accessed(ps),
                    AccessPattern { inode, last_block: block, access_count: 1, sequential_count: 0 })
            }),
    {
        let mut i: usize = 0;
        while i < 16
            invariant
                self.wf(),
                *self == *old(self),
                i <= 16,
                forall|k: int| 0 <= k < i ==> (#[trigger] self.patterns@[k]).inode != inode,
            decreases 16 - i,
        {
            let p = self.patterns[i];
            if p.inode == inode {
                proof { lemma_first_pattern(self.patterns@, inode, i as int); }
                let seq = if block as u64 == p.last_block as u64 + 1 { p.sequential_count.wrapping_add(1) } else { p.sequential_count };
                self.patterns.set(i, AccessPattern {
                    inode,
                    last_block: block,
                    access_count: p.access_count.wrapping_add(1),
                    sequential_count: seq,
                });
                return;
            }
            i = i + 1;
        }
        proof { lemma_first_pattern(self.patterns@, inode, 16); }
        let mut min_access: u32 = u32::MAX;
        let mut min_idx: usize = 0;
        let mut j: usize = 0;
        while j < 16
            invariant
                self.wf(),
                *self == *old(self),
                j <= 16,
                j == 0 ==> min_idx == 0 && min_access == u32::MAX,
                j > 0 ==> min_idx == least_accessed(self.patterns@.subrange(0, j as int))
                    && min_access == self.patterns@[min_idx as int].access_count && min_idx < j,
            decreases 16 - j,
        {
            proof {
                let q = self.patterns@.subrange(0, j + 1);
                assert(q.drop_last() =~= self.patterns@.subrange(0, j as int));
                if j > 0 {
                    assert(q[min_idx as int] == self.patterns@[min_idx as int]);
                }
            }
            if self.patterns[j].access_count < min_access {
                min_access = self.patterns[j].access_count;
                min_idx = j;
            }
            j = j + 1;
        }
        assert(self.patterns@.subrange(0, 16) =~= self.patterns@);
        self.patterns.set(min_idx, AccessPattern { inode, last_block: block, access_count: 1, sequential_count: 0 });
    }

    /// The block to read ahead for `inode`: the one after its last block,
    /// once more than two accesses in a row were sequential.
    pub fn predict_prefetch(&self, inode: u32) -> (r: Option<u32>)
        requires
            self.wf(),
        ensures
            r == predicted(self.patterns@, inode),
    {
        assert(self.patterns@.subrange(0, 16) =~= self.patterns@);
        let mut i: usize = 0;
        while i < 16
            invariant
                self.wf(),
                i <= 16,
                predicted(self.patterns@, inode) == predicted(self.patterns@.subrange(i as int, 16), inode),
            decreases 16 - i,
        {
            let p = self.patterns[i];
            proof {
                let q = self.patterns@.subrange(i as int, 16);
                assert(q[0] == p);
                assert(q.drop_first() =~= self.patterns@.subrange(i + 1, 16));
            }
            if p.inode == inode && p.sequential_count > 2 {
                return Some(p.last_block.wrapping_add(1));
            }
            i = i + 1;
        }
        None
    }

    /// The sector writes that store the bitmap: its first half to sector 65,
    /// its second half to sector 66.
    pub fn write_bitmap_to_disk(&self) -> (w: Vec<(u64, Vec<u8>)>)
        requires
            self.wf(),
        ensures
            w@.len() == 2,
            w@[0].0 == BITMAP_SECTOR && w@[0].1@ == self.block_bitmap@.subrange(0, 512),
            w@[1].0 == BITMAP_SECTOR + 1 && w@[1].1@ == self.block_bitmap@.subrange(512, 1024),
    {
        let s1 = copy_range(&self.block_bitmap, 0, 512);
        let s2 = copy_range(&self.block_bitmap, 512, 1024);
        let mut w: Vec<(u64, Vec<u8>)> = Vec::new();
        w.push((BITMAP_SECTOR, s1));
        w.push((BITMAP_SECTOR + 1, s2));
        w
    }

    /// Loads the bitmap from the contents of sectors 65 and 66.
    pub fn read_bitmap_from_disk(&mut self, sector1: &[u8], sector2: &[u8])
        requires
            old(self).wf(),
            sector1@.len() == 512,
            sector2@.len() == 512,
        ensures
            final(self).wf(),
            final(self).block_bitmap@ == sector1@ + sector2@,
            *final(self) == (PsychicFs { block_bitmap: final(self).block_bitmap, ..*old(self) }),
    {
        let mut bm = vstd::slice::slice_to_vec(sector1);
        let mut i: usize = 0;
        while i < 512
            invariant
                sector2@.len() == 512,
                i <= 512,
                bm@ == sector1@ + sector2@.subrange(0, i as int),
            decreases 512 - i,
        {
            bm.push(sector2[i]);
            i = i + 1;
            assert(bm@ =~= sector1@ + sector2@.subrange(0, i as int));
        }
        assert(sector2@.subrange(0, 512) =~= sector2@);
        self.block_bitmap = bm;
    }

    /// The sector writes a sync needs: the bitmap when it is dirty, then the
    /// superblock (stored with its dirty flag cleared) when it is dirty.
    /// Nothing when unmounted. The caller reports back with `sync_done`.
    pub fn sync(&mut self) -> (w: Vec<(u64, Vec<u8>)>)
        requires
            old(self).wf(),
        ensures
            final(self).wf(),
            !old(self).mounted ==> w@.len() == 0 && *final(self) == *old(self),
            old(self).mounted ==> {
                &&& final(self).superblock == if old(self).superblock_dirty {
                    Superblock { dirty: 0, ..old(self).superblock } } else { old(self).superblock }
                &&& *final(self) == (PsychicFs { superblock: final(self).superblock, ..*old(self) })
                &&& w@.len() == (if old(self).bitmap_dirty { 2int } else { 0int }) + (if old(self).superblock_dirty { 1int } else { 0int })
                &&& old(self).bitmap_dirty ==> w@[0].0 == BITMAP_SECTOR && w@[0].1@ == old(self).block_bitmap@.subrange(0, 512)
                    && w@[1].0 == BITMAP_SECTOR + 1 && w@[1].1@ == old(self).block_bitmap@.subrange(512, 1024)
                &&& old(self).superblock_dirty ==> w@.last().0 == SUPERBLOCK_SECTOR
                    && w@.last().1@ == superblock_bytes(final(self).superblock)
            },
    {
        let mut w: Vec<(u64, Vec<u8>)> = Vec::new();
        if !self.mounted {
            return w;
        }
        if self.bitmap_dirty {
            w = self.write_bitmap_to_disk();
        }
        if self.superblock_dirty {
            self.superblock.dirty = 0;
            w.push((SUPERBLOCK_SECTOR, superblock_to_bytes(&self.superblock)));
        }
        w
    }

    /// Records whether the writes `sync` asked for reached the disk; the
    /// parts written become clean. True when nothing failed.
    pub fn sync_done(&mut self, bitmap_written: bool, superblock_written: bool) -> (ok: bool)
        ensures
            !old(self).mounted ==> ok && *final(self) == *old(self),
            old(self).mounted ==> {
                &&& ok == ((!old(self).bitmap_dirty || bitmap_written) && (!old(self).superblock_dirty || superblock_written))
                &&& *final(self) == (PsychicFs {
                    bitmap_dirty: old(self).bitmap_dirty && !bitmap_written,
                    superblock_dirty: old(self).superblock_dirty && !superblock_written,
                    ..*old(self) })
            },
    {
        if !self.mounted {
            return true;
        }
        let mut ok = true;
        if self.bitmap_dirty {
            if bitmap_written {
                self.bitmap_dirty = false;
            } else {
                ok = false;
            }
        }
        if self.superblock_dirty {
            if superblock_written {
                self.superblock_dirty = false;
            } else {
                ok = false;
            }
        }
        ok
    }
}

/// Size of the inode table: 64 sectors of four 128-byte inodes.
pub open spec fn table_len() -> int {
    (INODE_TABLE_SECTORS * 512) as int
}

/// Inode `n` of the table is in use.
pub open spec fn slot_in_use(t: Seq<u8>, n: int) -> bool {
    t[n * 128] != 0
}

/// The name stored in inode `n` of the table.
pub open spec fn slot_name(t: Seq<u8>, n: int) -> Seq<char> {
    stored_name(t.subrange(n * 128 + 64, n * 128 + 112))
}

/// Inode `n` is in use and holds the name.
pub open spec fn slot_matches(t: Seq<u8>, n: int, name: Seq<char>) -> bool {
    slot_in_use(t, n) && slot_name(t, n) == name
}

/// Names of the in-use inodes among the first `n`, in order.
pub open spec fn listed(t: Seq<u8>, n: int) -> Seq<Seq<char>>
    decreases n,
{
    if n <= 0 {
        Seq::empty()
    } else if slot_in_use(t, n - 1) {
        listed(t, n - 1).push(slot_name(t, n - 1))
    } else {
        listed(t, n - 1)
    }
}

/// The table sector holding inode `n`, with that inode's 128 bytes replaced.
pub open spec fn patched_sector(t: Seq<u8>, n: int, ib: Seq<u8>) -> Seq<u8> {
    let base = (n / 4) * 512;
    let off = (n % 4) * 128;
    t.subrange(base, base + off) + ib + t.subrange(base + off + 128, base + 512)
}

/// A newly created inode: in use, named, stamped with `now`, otherwise as
/// `Inode::new` makes it.
pub open spec fn fresh_inode(i: Inode, name: Seq<char>, now: u64) -> bool {
    &&& i.wf()
    &&& i.in_use == 1 && i.file_type == 0 && i.permissions == 0o644 && i.size == 0
    &&& i.created_time == now && i.modified_time == now
    &&& forall|k: int| 0 <= k < INLINE_EXTENTS ==> #[trigger] i.extents@[k] == Extent::empty_spec()
    &&& i.extent_indirect == 0 && i.last_extent_idx == 0 && i.extent_count == 0
    &&& i.name@ == name_field_after(zeros(48), vstd::utf8::encode_utf8(name))
    &&& i.dirty == 0
}

/// The inode-table sector holding inode `n` with the given inode stored in
/// it: (sector number, sector contents).
pub fn inode_sector_write(table: &[u8], n: u32, inode: &Inode) -> (w: (u64, Vec<u8>))
    requires
        table@.len() == table_len(),
        n < MAX_FILES,
        inode.wf(),
    ensures
        w.0 == INODE_TABLE_START + n / 4,
        w.1@ == patched_sector(table@, n as int, inode_bytes(*inode)),
{
    let base = (n as usize / 4) * 512;
    let off = (n as usize % 4) * 128;
    let mut v: Vec<u8> = Vec::new();
    let mut i: usize = base;
    while i < base + off
        invariant
            table@.len() == table_len(),
            base + 512 <= table_len(),
            off <= 384,
            base <= i <= base + off,
            v@ == table@.subrange(base as int, i as int),
        decreases base + off - i,
    {
        v.push(table[i]);
        i = i + 1;
        assert(v@ =~= table@.subrange(base as int, i as int));
    }
    let ib = inode_to_bytes(inode);
    proof { lemma_inode_round_trip(*inode); }
    let ghost head = v@;
    let mut k: usize = 0;
    while k < 128
        invariant
            ib@ == inode_bytes(*inode),
            ib@.len() == 128,
            k <= 128,
            v@ == head + ib@.subrange(0, k as int),
        decreases 128 - k,
    {
        v.push(ib[k]);
        k = k + 1;
        assert(v@ =~= head + ib@.subrange(0, k as int));
    }
    proof { lemma_inode_round_trip(*inode); }
    assert(ib@.subrange(0, 128) =~= ib@);
    let ghost mid = v@;
    let mut j: usize = base + off + 128;
    while j < base + 512
        invariant
            table@.len() == table_len(),
            base + 512 <= table_len(),
            base + off + 128 <= j <= base + 512,
            v@ == mid + table@.subrange(base + off + 128, j as int),
        decreases base + 512 - j,
    {
        v.push(table[j]);
        j = j + 1;
        assert(v@ =~= mid + table@.subrange(base + off + 128, j as int));
    }
    (INODE_TABLE_START + (n / 4) as u64, v)
}

/// The first in-use inode holding `name`, with its number.
pub fn find_inode_by_name(table: &[u8], name: &str) -> (r: Option<(u32, Inode)>)
    requires
        table@.len() == table_len(),
    ensures
        r is None <==> forall|n: int| 0 <= n < MAX_FILES ==> !#[trigger] slot_matches(table@, n, name@),
        r matches Some((n, i)) ==> {
            &&& n < MAX_FILES
            &&& slot_matches(table@, n as int, name@)
            &&& forall|k: int| 0 <= k < n ==> !#[trigger] slot_matches(table@, k, name@)
            &&& decodes_to(table@, n * 128, i)
        },
{
    let mut n: u32 = 0;
    while n < MAX_FILES as u32
        invariant
            table@.len() == table_len(),
            n <= MAX_FILES,
            forall|k: int| 0 <= k < n ==> !#[trigger] slot_matches(table@, k, name@),
        decreases MAX_FILES - n,
    {
        let at = (n as usize) * 128;
        let inode = bytes_to_inode(table, at);
        if inode.in_use != 0 {
            let nm = inode.get_name();
            if crate::text::str_eq(nm.as_str(), name) {
                assert(slot_matches(table@, n as int, name@));
                return Some((n, inode));
            }
        }
        n = n + 1;
    }
    None
}

/// The first inode not in use.
pub fn find_free_inode(table: &[u8]) -> (r: Option<u32>)
    requires
        table@.len() == table_len(),
    ensures
        r is None <==> forall|n: int| 0 <= n < MAX_FILES ==> #[trigger] slot_in_use(table@, n),
        r matches Some(n) ==> n < MAX_FILES && !slot_in_use(table@, n as int)
            && forall|k: int| 0 <= k < n ==> #[trigger] slot_in_use(table@, k),
{
    let mut n: u32 = 0;
    while n < MAX_FILES as u32
        invariant
            table@.len() == table_len(),
            n <= MAX_FILES,
            forall|k: int| 0 <= k < n ==> #[trigger] slot_in_use(table@, k),
        decreases MAX_FILES - n,
    {
        if table[(n as usize) * 128] == 0 {
            assert(!slot_in_use(table@, n as int));
            return Some(n);
        }
        n = n + 1;
    }
    None
}

/// Names of the files, in inode order.
pub fn fs_list(table: &[u8]) -> (files: Vec<String>)
    requires
        table@.len() == table_len(),
    ensures
        files@.len() == listed(table@, MAX_FILES as int).len(),
        forall|k: int| 0 <= k < files@.len() ==> #[trigger] files@[k]@ == listed(table@, MAX_FILES as int)[k],
{
    let mut files: Vec<String> = Vec::new();
    let mut n: usize = 0;
    while n < MAX_FILES
        invariant
            table@.len() == table_len(),
            n <= MAX_FILES,
            files@.len() == listed(table@, n as int).len(),
            forall|k: int| 0 <= k < files@.len() ==> #[trigger] files@[k]@ == listed(table@, n as int)[k],
        decreases MAX_FILES - n,
    {
        let inode = bytes_to_inode(table, n * 128);
        if inode.in_use != 0 {
            files.push(inode.get_name());
        }
        n = n + 1;
    }
    files
}

/// Creates an empty file: the inode-table sector write that stores a new
/// inode for `name` (stamped with `now`) in the first free inode. `None`
/// when the name takes 48 bytes or more, the file exists, or no inode is
/// free.
pub fn fs_create(table: &[u8], name: &str, now: u64) -> (r: Option<(u64, Vec<u8>)>)
    requires
        table@.len() == table_len(),
    ensures
        vstd::utf8::encode_utf8(name@).len() >= MAX_FILENAME_LEN ==> r is None,
        (exists|n: int| 0 <= n < MAX_FILES && #[trigger] slot_matches(table@, n, name@)) ==> r is None,
        (forall|n: int| 0 <= n < MAX_FILES ==> #[trigger] slot_in_use(table@, n)) ==> r is None,
        r is None ==> vstd::utf8::encode_utf8(name@).len() >= MAX_FILENAME_LEN
            || (exists|n: int| 0 <= n < MAX_FILES && #[trigger] slot_matches(table@, n, name@))
            || (forall|n: int| 0 <= n < MAX_FILES ==> #[trigger] slot_in_use(table@, n)),
        r matches Some(w) ==> exists|n: int, i: Inode| {
            &&& 0 <= n < MAX_FILES && !slot_in_use(table@, n)
            &&& forall|k: int| 0 <= k < n ==> #[trigger] slot_in_use(table@, k)
            &&& fresh_inode(i, name@, now)
            &&& w.0 == INODE_TABLE_START + n / 4
            &&& w.1@ == patched_sector(table@, n, inode_bytes(i))
        },
{
    if name.as_bytes().len() >= MAX_FILENAME_LEN {
        return None;
    }
    if find_inode_by_name(table, name).is_some() {
        return None;
    }
    let n = match find_free_inode(table) {
        Some(n) => n,
        None => return None,
    };
    let inode = new_file_inode(name, now);
    let w = inode_sector_write(table, n, &inode);
    assert(fresh_inode(inode, name@, now));
    Some(w)
}

/// A new in-use inode named `name`, created and modified at `now`.
fn new_file_inode(name: &str, now: u64) -> (i: Inode)
    ensures
        fresh_inode(i, name@, now),
{
    let mut inode = Inode::new();
    let ghost z = inode.name@;
    assert(z =~= zeros(48));
    inode.in_use = 1;
    inode.set_name(name);
    inode.created_time = now;
    inode.modified_time = now;
    inode
}

/// Block `b` lies in the data area the bitmap covers.
pub open spec fn in_data(b: int) -> bool {
    DATA_BLOCKS_START <= b && b - DATA_BLOCKS_START < 8 * BITMAP_BYTES
}

/// Number of blocks among `start..start + k` in the data area whose bit is
/// set.
pub open spec fn set_in(bm: Seq<u8>, start: int, k: int) -> int
    decreases k,
{
    if k <= 0 {
        0
    } else {
        set_in(bm, start, k - 1) + if in_data(start + k - 1) && bit_set(bm, start + k - 1 - DATA_BLOCKS_START) { 1int } else { 0int }
    }
}

proof fn lemma_set_in_nonneg(bm: Seq<u8>, start: int, k: int)
    ensures
        set_in(bm, start, k) >= 0,
    decreases k,
{
    if k > 0 {
        lemma_set_in_nonneg(bm, start, k - 1);
    }
}

/// `x + k`, saturating at `u32::MAX`.
pub open spec fn sat_add(x: int, k: int) -> int {
    if x + k > u32::MAX { u32::MAX as int } else { x + k }
}

/// Number of 512-byte blocks `size` bytes take.
pub open spec fn nblocks(size: int) -> int {
    (size + 511) / 512
}

/// The bytes of block `l` of a file of `size` bytes, read from `blocks`
/// (a hole reads as zeros).
pub open spec fn file_chunk(size: int, trans: Seq<Option<u32>>, blocks: Seq<Seq<u8>>, l: int) -> Seq<u8> {
    let take = if size - l * 512 < 512 { size - l * 512 } else { 512 };
    if trans[l] is Some { blocks[l].subrange(0, take) } else { zeros(take as nat) }
}

/// The file's first `k` blocks, concatenated.
pub open spec fn file_data(size: int, trans: Seq<Option<u32>>, blocks: Seq<Seq<u8>>, k: int) -> Seq<u8>
    decreases k,
{
    if k <= 0 {
        Seq::empty()
    } else {
        file_data(size, trans, blocks, k - 1) + file_chunk(size, trans, blocks, k - 1)
    }
}

/// Block `l` of `d` as written to disk: its bytes, padded with zeros to 512.
pub open spec fn block_image(d: Seq<u8>, l: int) -> Seq<u8> {
    let end = if d.len() < l * 512 + 512 { d.len() as int } else { l * 512 + 512 };
    d.subrange(l * 512, end) + zeros((l * 512 + 512 - end) as nat)
}

/// Where each block of the file lives: logical block `l` is looked up as
/// `l mod 65536`, the width of an extent's logical offset.
pub open spec fn block_map(i: Inode) -> Seq<Option<u32>> {
    Seq::new(nblocks(i.size as int) as nat, |l: int| first_translation(i.extents@, l % 65536))
}

proof fn lemma_file_data_len(size: int, trans: Seq<Option<u32>>, blocks: Seq<Seq<u8>>, k: int)
    requires
        0 <= k <= nblocks(size),
        size >= 0,
        trans.len() >= k && blocks.len() >= k,
        forall|l: int| 0 <= l < k ==> (#[trigger] blocks[l]).len() == 512,
    ensures
        file_data(size, trans, blocks, k).len() == if k * 512 <= size { k * 512 } else { size },
    decreases k,
{
    if k > 0 {
        lemma_file_data_len(size, trans, blocks, k - 1);
    }
}

/// Reading back a file written block by block gives its bytes: when every
/// block is mapped and block `l` holds `block_image(d, l)`, the file's
/// content is `d`.
pub proof fn lemma_read_after_write(d: Seq<u8>, trans: Seq<Option<u32>>)
    requires
        trans.len() == nblocks(d.len() as int),
        forall|l: int| 0 <= l < trans.len() ==> (#[trigger] trans[l]) is Some,
    ensures
        file_data(d.len() as int, trans, Seq::new(nblocks(d.len() as int) as nat, |l: int| block_image(d, l)),
            nblocks(d.len() as int)) == d,
{
    let size = d.len() as int;
    let nb = nblocks(size);
    let blocks = Seq::new(nb as nat, |l: int| block_image(d, l));
    assert forall|k: int| 0 <= k <= nb implies #[trigger] file_data(size, trans, blocks, k)
        == d.subrange(0, if k * 512 <= size { k * 512 } else { size }) by {
        lemma_prefix(d, trans, blocks, k);
    }
    assert(d.subrange(0, size) =~= d);
}

proof fn lemma_prefix(d: Seq<u8>, trans: Seq<Option<u32>>, blocks: Seq<Seq<u8>>, k: int)
    requires
        trans.len() == nblocks(d.len() as int),
        forall|l: int| 0 <= l < trans.len() ==> (#[trigger] trans[l]) is Some,
        blocks == Seq::new(nblocks(d.len() as int) as nat, |l: int| block_image(d, l)),
        0 <= k <= nblocks(d.len() as int),
    ensures
        file_data(d.len() as int, trans, blocks, k) == d.subrange(0, if k * 512 <= d.len() { k * 512 } else { d.len() as int }),
    decreases k,
{
    let size = d.len() as int;
    if k == 0 {
        assert(d.subrange(0, 0) =~= Seq::<u8>::empty());
    } else {
        lemma_prefix(d, trans, blocks, k - 1);
        let l = k - 1;
        assert(l * 512 < size) by {
            assert(k <= (size + 511) / 512);
        }
        let take = if size - l * 512 < 512 { size - l * 512 } else { 512 };
        let end = if size < l * 512 + 512 { size } else { l * 512 + 512 };
        assert(trans[l] is Some);
        assert(file_chunk(size, trans, blocks, l) =~= d.subrange(l * 512, l * 512 + take));
        assert(d.subrange(0, l * 512) + d.subrange(l * 512, l * 512 + take) =~= d.subrange(0, l * 512 + take));
    }
}

impl PsychicFs {
    /// Frees blocks `start..start + count` (those in use in the data area).
    pub fn free_block_range(&mut self, start: u32, count: u16)
        requires
            old(self).wf(),
        ensures
            final(self).wf(),
            forall|j: int| 0 <= j < 8 * BITMAP_BYTES ==> #[trigger] bit_set(final(self).block_bitmap@, j) ==
                (bit_set(old(self).block_bitmap@, j) && !(start <= DATA_BLOCKS_START + j < start + count)),
            final(self).superblock == (Superblock {
                free_blocks: sat_add(old(self).superblock.free_blocks as int, set_in(old(self).block_bitmap@, start as int, count as int)) as u32,
                ..old(self).superblock }),
            final(self).same_except_metadata(old(self)),
            set_in(old(self).block_bitmap@, start as int, count as int) > 0 ==> final(self).bitmap_dirty && final(self).superblock_dirty,
            set_in(old(self).block_bitmap@, start as int, count as int) == 0 ==> *final(self) == *old(self),
    {
        let mut i: u32 = 0;
        while i < count as u32
            invariant
                self.wf(),
                i <= count,
                forall|j: int| 0 <= j < 8 * BITMAP_BYTES ==> #[trigger] bit_set(self.block_bitmap@, j) ==
                    (bit_set(old(self).block_bitmap@, j) && !(start <= DATA_BLOCKS_START + j < start + i)),
                self.superblock == (Superblock {
                    free_blocks: sat_add(old(self).superblock.free_blocks as int, set_in(old(self).block_bitmap@, start as int, i as int)) as u32,
                    ..old(self).superblock }),
                self.same_except_metadata(old(self)),
                set_in(old(self).block_bitmap@, start as int, i as int) > 0 ==> self.bitmap_dirty && self.superblock_dirty,
                set_in(old(self).block_bitmap@, start as int, i as int) == 0 ==> *self == *old(self),
            decreases count - i,
        {
            let b: u64 = start as u64 + i as u64;
            let ghost before = self.block_bitmap@;
            let ghost k = b - DATA_BLOCKS_START;
            proof {
                if in_data(b as int) {
                    assert(bit_set(before, k) == bit_set(old(self).block_bitmap@, k));
                }
                lemma_set_in_nonneg(old(self).block_bitmap@, start as int, i as int);
                assert(set_in(old(self).block_bitmap@, start as int, i + 1) == set_in(old(self).block_bitmap@, start as int, i as int)
                    + if in_data(b as int) && bit_set(old(self).block_bitmap@, k) { 1int } else { 0int });
            }
            if b <= u32::MAX as u64 {
                self.free_block(b as u32);
                proof {
                    if in_data(b as int) && bit_set(before, k) {
                        assert forall|j: int| 0 <= j < 8 * BITMAP_BYTES implies #[trigger] bit_set(self.block_bitmap@, j) ==
                            (bit_set(old(self).block_bitmap@, j) && !(start <= DATA_BLOCKS_START + j < start + i + 1)) by {
                            lemma_with_bit(before, k, false, j);
                        }
                    }
                }
            }
            i = i + 1;
        }
    }

    /// Deletes the file `name`: frees the blocks of its extents (and its
    /// indirect block), and returns the inode-table sector write that stores
    /// the inode as free with no extents and size 0. `None` when no file has
    /// the name.
    pub fn fs_delete(&mut self, table: &[u8], name: &str) -> (r: Option<(u64, Vec<u8>)>)
        requires
            old(self).wf(),
            table@.len() == table_len(),
        ensures
            final(self).wf(),
            r is None <==> forall|n: int| 0 <= n < MAX_FILES ==> !#[trigger] slot_matches(table@, n, name@),
            r is None ==> *final(self) == *old(self),
            r matches Some(w) ==> exists|n: int, i0: Inode, i: Inode| {
                &&& 0 <= n < MAX_FILES && slot_matches(table@, n, name@)
                &&& forall|k: int| 0 <= k < n ==> !#[trigger] slot_matches(table@, k, name@)
                &&& decodes_to(table@, n * 128, i0)
                &&& deleted(i, i0)
                &&& w.0 == INODE_TABLE_START + n / 4
                &&& w.1@ == patched_sector(table@, n, inode_bytes(i))
                &&& forall|j: int| 0 <= j < 8 * BITMAP_BYTES ==> #[trigger] bit_set(final(self).block_bitmap@, j) ==
                    (bit_set(old(self).block_bitmap@, j) && !owned_block(i0, DATA_BLOCKS_START + j))
                &&& final(self).superblock.free_blocks >= old(self).superblock.free_blocks
                &&& final(self).same_except_metadata(old(self))
            },
    {
        let (n, mut inode) = match find_inode_by_name(table, name) {
            Some(x) => x,
            None => return None,
        };
        let ghost i0 = inode;
        let mut k: usize = 0;
        while k < INLINE_EXTENTS
            invariant
                self.wf(),
                inode.wf(),
                inode.same(&i0),
                k <= INLINE_EXTENTS,
                forall|j: int| 0 <= j < 8 * BITMAP_BYTES ==> #[trigger] bit_set(self.block_bitmap@, j) ==
                    (bit_set(old(self).block_bitmap@, j) && !owned_by_extents(i0.extents@.subrange(0, k as int), DATA_BLOCKS_START + j)),
                self.superblock.free_blocks >= old(self).superblock.free_blocks,
                self.same_except_metadata(old(self)),
            decreases INLINE_EXTENTS - k,
        {
            let e = inode.extents[k];
            let ghost before = self.block_bitmap@;
            if !e.is_empty() {
                proof { lemma_set_in_nonneg(self.block_bitmap@, e.physical_block as int, e.count as int); }
                self.free_block_range(e.physical_block, e.count);
            }
            proof {
                assert(i0.extents@.subrange(0, k + 1).drop_last() =~= i0.extents@.subrange(0, k as int));
                assert forall|j: int| 0 <= j < 8 * BITMAP_BYTES implies #[trigger] bit_set(self.block_bitmap@, j) ==
                    (bit_set(old(self).block_bitmap@, j) && !owned_by_extents(i0.extents@.subrange(0, k + 1), DATA_BLOCKS_START + j)) by {
                    assert(i0.extents@.subrange(0, k + 1).last() == e);
                }
            }
            k = k + 1;
        }
        assert(i0.extents@.subrange(0, 4) =~= i0.extents@);
        if inode.extent_indirect != 0 {
            let ghost before = self.block_bitmap@;
            self.free_block(inode.extent_indirect);
            proof {
                let b = i0.extent_indirect as int;
                assert forall|j: int| 0 <= j < 8 * BITMAP_BYTES implies #[trigger] bit_set(self.block_bitmap@, j) ==
                    (bit_set(old(self).block_bitmap@, j) && !owned_block(i0, DATA_BLOCKS_START + j)) by {
                    if in_data(b) && allocated(before, b) {
                        lemma_with_bit(before, b - DATA_BLOCKS_START, false, j);
                    }
                }
            }
        }
        inode.clear_extents();
        inode.in_use = 0;
        inode.size = 0;
        let w = inode_sector_write(table, n, &inode);
        assert(deleted(inode, i0));
        Some(w)
    }
}

/// Block `b` belongs to one of the extents.
pub open spec fn owned_by_extents(exts: Seq<Extent>, b: int) -> bool
    decreases exts.len(),
{
    if exts.len() == 0 {
        false
    } else {
        owned_by_extents(exts.drop_last(), b)
            || (exts.last().count != 0 && exts.last().physical_block <= b < exts.last().physical_block + exts.last().count)
    }
}

/// Block `b` belongs to the file: to one of its extents or is its indirect
/// extent block.
pub open spec fn owned_block(i: Inode, b: int) -> bool {
    owned_by_extents(i.extents@, b) || (i.extent_indirect != 0 && b == i.extent_indirect)
}

/// `i` is `i0` deleted: not in use, size 0, no extents, the rest kept.
pub open spec fn deleted(i: Inode, i0: Inode) -> bool {
    &&& i.wf()
    &&& i.in_use == 0 && i.size == 0
    &&& forall|k: int| 0 <= k < INLINE_EXTENTS ==> #[trigger] i.extents@[k] == Extent::empty_spec()
    &&& i.extent_indirect == 0 && i.last_extent_idx == 0 && i.extent_count == 0
    &&& i.file_type == i0.file_type && i.permissions == i0.permissions
    &&& i.created_time == i0.created_time && i.modified_time == i0.modified_time
    &&& i.name@ == i0.name@ && i.dirty == i0.dirty
}

/// Where each of the file's blocks is on disk (`None` for a hole), in
/// logical order.
pub fn file_blocks(inode: &Inode) -> (r: Vec<Option<u32>>)
    requires
        inode.wf(),
    ensures
        r@ == block_map(*inode),
{
    let nb: usize = ((inode.size as u64 + 511) / 512) as usize;
    let mut r: Vec<Option<u32>> = Vec::new();
    let mut l: usize = 0;
    while l < nb
        invariant
            inode.wf(),
            nb == nblocks(inode.size as int),
            l <= nb,
            r@ == block_map(*inode).subrange(0, l as int),
        decreases nb - l,
    {
        r.push(inode.get_physical_block((l % 65536) as u16));
        l = l + 1;
        assert(r@ =~= block_map(*inode).subrange(0, l as int));
    }
    assert(block_map(*inode).subrange(0, nb as int) =~= block_map(*inode));
    r
}

/// The file's content, given the disk blocks `file_blocks` lists: block `l`
/// of `blocks` is the sector read for logical block `l` (ignored for a
/// hole, which reads as zeros).
pub fn fs_read(inode: &Inode, blocks: &Vec<Vec<u8>>) -> (data: Vec<u8>)
    requires
        inode.wf(),
        blocks@.len() == nblocks(inode.size as int),
        forall|l: int| 0 <= l < blocks@.len() ==> (#[trigger] blocks@[l])@.len() == BLOCK_SIZE,
    ensures
        data@ == file_data(inode.size as int, block_map(*inode), blocks@.map_values(|b: Vec<u8>| b@), nblocks(inode.size as int)),
        data@.len() == inode.size,
{
    let size = inode.size as usize;
    let ghost bs = blocks@.map_values(|b: Vec<u8>| b@);
    let ghost trans = block_map(*inode);
    let nb: usize = ((inode.size as u64 + 511) / 512) as usize;
    let mut data: Vec<u8> = Vec::new();
    let mut l: usize = 0;
    while l < nb
        invariant
            inode.wf(),
            size == inode.size,
            nb == nblocks(size as int),
            blocks@.len() == nb,
            forall|k: int| 0 <= k < blocks@.len() ==> (#[trigger] blocks@[k])@.len() == BLOCK_SIZE,
            bs == blocks@.map_values(|b: Vec<u8>| b@),
            trans == block_map(*inode),
            l <= nb,
            data@ == file_data(size as int, trans, bs, l as int),
            data@.len() == if l * 512 <= size { l * 512 } else { size as int },
            l < nb ==> l * 512 < size,
        decreases nb - l,
    {
        let remaining = size - data.len();
        let take = if remaining < 512 { remaining } else { 512 };
        let p = inode.get_physical_block((l % 65536) as u16);
        let ghost before = data@;
        if p.is_some() {
            let mut k: usize = 0;
            while k < take
                invariant
                    take <= 512,
                    blocks@.len() == nb,
                    l < nb,
                    (blocks@[l as int])@.len() == BLOCK_SIZE,
                    k <= take,
                    data@ == before + blocks@[l as int]@.subrange(0, k as int),
                decreases take - k,
            {
                data.push(blocks[l][k]);
                k = k + 1;
                assert(data@ =~= before + blocks@[l as int]@.subrange(0, k as int));
            }
        } else {
            push_zeros(&mut data, take);
        }
        proof {
            assert(trans[l as int] == p);
            assert(bs[l as int] == blocks@[l as int]@);
            assert(data@ =~= before + file_chunk(size as int, trans, bs, l as int));
        }
        l = l + 1;
        proof {
            if l < nb {
                assert(l < (size + 511) / 512);
            }
        }
    }
    proof {
        lemma_file_data_len(size as int, trans, bs, nb as int);
    }
    data
}

/// The inode a write to `name` goes to: the first one holding the name,
/// or, when none does and the name fits, the first free one.
pub open spec fn write_target(t: Seq<u8>, name: Seq<char>, n: int) -> bool {
    ||| (0 <= n < MAX_FILES && slot_matches(t, n, name) && forall|k: int| 0 <= k < n ==> !#[trigger] slot_matches(t, k, name))
    ||| ({
        &&& forall|k: int| 0 <= k < MAX_FILES ==> !#[trigger] slot_matches(t, k, name)
        &&& vstd::utf8::encode_utf8(name).len() < MAX_FILENAME_LEN
        &&& 0 <= n < MAX_FILES && !slot_in_use(t, n)
        &&& forall|k: int| 0 <= k < n ==> #[trigger] slot_in_use(t, k)
    })
}

/// The extent slots of the inode stored at slot `n` of the table.
pub open spec fn slot_extents(t: Seq<u8>, n: int) -> Seq<Extent> {
    Seq::new(INLINE_EXTENTS as nat, |k: int| Extent {
        logical_block: get16(t, n * 128 + 24 + 8 * k),
        physical_block: get32(t, n * 128 + 26 + 8 * k),
        count: get16(t, n * 128 + 30 + 8 * k),
    })
}

/// Block `b` belongs to the file that a write to `name` replaces at slot
/// `n` (a file created by the write owns none).
pub open spec fn replaced_block(t: Seq<u8>, name: Seq<char>, n: int, b: int) -> bool {
    slot_matches(t, n, name) && owned_by_extents(slot_extents(t, n), b)
}

/// Block `b` is free once the replaced file's blocks are released.
pub open spec fn free_after_release(bm: Seq<u8>, t: Seq<u8>, name: Seq<char>, n: int, b: int) -> bool {
    !allocated(bm, b) || (DATA_BLOCKS_START <= b && (b - DATA_BLOCKS_START) / 8 < BITMAP_BYTES && replaced_block(t, name, n, b))
}

/// Once the replaced file's blocks are released, `c` consecutive blocks
/// inside the disk are free.
pub open spec fn room_for(fs: PsychicFs, t: Seq<u8>, name: Seq<char>, n: int, c: int) -> bool {
    exists|s: int| DATA_BLOCKS_START <= s && s + c <= fs.superblock.total_blocks
        && #[trigger] free_after_release_run(fs.block_bitmap@, t, name, n, s, c)
}

/// Blocks `s..s + c` are all free once the replaced file's blocks are
/// released.
pub open spec fn free_after_release_run(bm: Seq<u8>, t: Seq<u8>, name: Seq<char>, n: int, s: int, c: int) -> bool {
    forall|b: int| s <= b < s + c ==> #[trigger] free_after_release(bm, t, name, n, b)
}

/// No block in `s..s + c` is allocated.
spec fn free_run(bm: Seq<u8>, s: int, c: int) -> bool {
    forall|b: int| s <= b < s + c ==> !#[trigger] allocated(bm, b)
}

/// A block free in a bitmap is free in any bitmap with fewer bits set.
proof fn lemma_free_in_sub(cur: Seq<u8>, bm: Seq<u8>, b: int)
    requires
        forall|j: int| 0 <= j < 8 * BITMAP_BYTES ==> #[trigger] bit_set(bm, j) ==> bit_set(cur, j),
        !allocated(cur, b),
    ensures
        free_run(bm, b, 1),
{
    assert forall|x: int| b <= x < b + 1 implies !#[trigger] allocated(bm, x) by {
        if DATA_BLOCKS_START <= x && (x - DATA_BLOCKS_START) / 8 < BITMAP_BYTES {
            assert(bit_set(bm, x - DATA_BLOCKS_START) ==> bit_set(cur, x - DATA_BLOCKS_START));
        }
    }
}

/// A block free once the replaced file's blocks were released is free
/// after release in the bitmap before.
proof fn lemma_released(bm1: Seq<u8>, bm: Seq<u8>, t: Seq<u8>, name: Seq<char>, n: int, b: int)
    requires
        free_run(bm1, b, 1),
        forall|j: int| 0 <= j < 8 * BITMAP_BYTES ==> #[trigger] bit_set(bm1, j) ==
            (bit_set(bm, j) && !replaced_block(t, name, n, DATA_BLOCKS_START + j)),
    ensures
        DATA_BLOCKS_START <= b && free_after_release(bm, t, name, n, b),
{
    assert(!allocated(bm1, b));
    assert(bit_set(bm1, b - DATA_BLOCKS_START) == (bit_set(bm, b - DATA_BLOCKS_START)
        && !replaced_block(t, name, n, DATA_BLOCKS_START + (b - DATA_BLOCKS_START))));
}

/// A write to the file at slot `n` kept every block that stays in use
/// once the replaced file's blocks are released, and took only blocks free
/// then.
pub open spec fn blocks_kept_or_taken(before: Seq<u8>, after: Seq<u8>, t: Seq<u8>, name: Seq<char>, n: int) -> bool {
    forall|j: int| 0 <= j < 8 * BITMAP_BYTES ==> {
        &&& (bit_set(before, j) && !replaced_block(t, name, n, DATA_BLOCKS_START + j)) ==> #[trigger] bit_set(after, j)
        &&& bit_set(after, j) ==> (bit_set(before, j) && !replaced_block(t, name, n, DATA_BLOCKS_START + j))
            || free_after_release(before, t, name, n, DATA_BLOCKS_START + j)
    }
}

/// A bitmap that holds the released one and adds only blocks free in it
/// keeps or takes blocks as a write may.
proof fn lemma_taken(before: Seq<u8>, bm1: Seq<u8>, cur: Seq<u8>, t: Seq<u8>, name: Seq<char>, n: int)
    requires
        forall|j: int| 0 <= j < 8 * BITMAP_BYTES ==> #[trigger] bit_set(bm1, j) ==
            (bit_set(before, j) && !replaced_block(t, name, n, DATA_BLOCKS_START + j)),
        forall|j: int| 0 <= j < 8 * BITMAP_BYTES ==> #[trigger] bit_set(cur, j) ==> bit_set(bm1, j) || free_run(bm1, DATA_BLOCKS_START + j, 1),
        forall|j: int| 0 <= j < 8 * BITMAP_BYTES ==> #[trigger] bit_set(bm1, j) ==> bit_set(cur, j),
    ensures
        blocks_kept_or_taken(before, cur, t, name, n),
{
    assert forall|j: int| 0 <= j < 8 * BITMAP_BYTES implies {
        &&& (bit_set(before, j) && !replaced_block(t, name, n, DATA_BLOCKS_START + j)) ==> #[trigger] bit_set(cur, j)
        &&& bit_set(cur, j) ==> (bit_set(before, j) && !replaced_block(t, name, n, DATA_BLOCKS_START + j))
            || free_after_release(before, t, name, n, DATA_BLOCKS_START + j)
    } by {
        assert(bit_set(bm1, j) == (bit_set(before, j) && !replaced_block(t, name, n, DATA_BLOCKS_START + j)));
        if bit_set(cur, j) && !bit_set(bm1, j) {
            lemma_released(bm1, before, t, name, n, DATA_BLOCKS_START + j);
        }
    }
}

/// A write never takes another file's block: a block in use before the
/// write that the replaced file does not own is not free after the release,
/// so none of the blocks `fs_write` writes or gives the new file is it.
pub proof fn lemma_other_files_untouched(bm: Seq<u8>, t: Seq<u8>, name: Seq<char>, n: int, b: int)
    requires
        allocated(bm, b),
        !replaced_block(t, name, n, b),
    ensures
        !free_after_release(bm, t, name, n, b),
{
}

/// A free run holds no allocated block.
proof fn lemma_free_run(bm: Seq<u8>, s: int, c: int)
    requires
        free_run(bm, s, c),
    ensures
        !has_allocated(bm, s, c),
{
}

/// At most one inode is the target of a write.
proof fn lemma_write_target_unique(t: Seq<u8>, name: Seq<char>, a: int, b: int)
    requires
        write_target(t, name, a),
        write_target(t, name, b),
    ensures
        a == b,
{
    if slot_matches(t, a, name) && 0 <= a < MAX_FILES {
        if a < b { assert(!slot_matches(t, a, name)); }
        if b < a { assert(!slot_matches(t, b, name)); }
    } else {
        if a < b { assert(slot_in_use(t, a)); }
        if b < a { assert(slot_in_use(t, b)); }
    }
}

/// Extents that are all empty own no block.
proof fn lemma_empty_extents_own_nothing(exts: Seq<Extent>, b: int)
    requires
        forall|k: int| 0 <= k < exts.len() ==> (#[trigger] exts[k]).count == 0,
    ensures
        !owned_by_extents(exts, b),
    decreases exts.len(),
{
    if exts.len() > 0 {
        lemma_empty_extents_own_nothing(exts.drop_last(), b);
    }
}

/// Extents laid out by successive appends covering logical blocks
/// `0..covered`: slots `0..extent_count` are used in order, the last one
/// ends at `covered`, the others end where the last starts at the latest,
/// and the rest are empty.
pub open spec fn appended(i: Inode, covered: int) -> bool {
    let c = i.extent_count as int;
    let last = i.last_extent_idx as int;
    &&& c <= INLINE_EXTENTS
    &&& c == 0 <==> covered == 0
    &&& c > 0 ==> last == c - 1
    &&& c > 0 ==> i.extents@[last].logical_block + i.extents@[last].count == covered
    &&& c > 0 ==> i.extents@[last].count > 0 && i.extents@[last].physical_block + i.extents@[last].count <= u32::MAX
    &&& forall|k: int| 0 <= k < c - 1 ==> #[trigger] i.extents@[k].logical_block + i.extents@[k].count <= i.extents@[last].logical_block
    &&& forall|k: int| 0 <= k < c ==> (#[trigger] i.extents@[k]).count > 0
    &&& forall|k: int| c <= k < INLINE_EXTENTS ==> #[trigger] i.extents@[k] == Extent::empty_spec()
    &&& forall|l: int| 0 <= l < covered ==> (#[trigger] first_translation(i.extents@, l)) is Some
}

proof fn lemma_first_translation_some(exts: Seq<Extent>, l: int, k: int)
    requires
        0 <= k < exts.len(),
        ext_contains(exts[k], l),
    ensures
        first_translation(exts, l) is Some,
    decreases exts.len(),
{
    if k > 0 && !ext_contains(exts[0], l) {
        assert(exts.drop_first()[k - 1] == exts[k]);
        lemma_first_translation_some(exts.drop_first(), l, k - 1);
    }
}

/// Whether some extent maps `l`; an extent that maps `l` makes the
/// translation defined.
proof fn lemma_translation_unchanged(a: Seq<Extent>, b: Seq<Extent>, l: int, k: int)
    requires
        a.len() == b.len(),
        0 <= k < a.len(),
        forall|j: int| 0 <= j < a.len() && j != k ==> #[trigger] a[j] == b[j],
        ext_contains(a[k], l) ==> ext_contains(b[k], l),
        first_translation(a, l) is Some,
    ensures
        first_translation(b, l) is Some,
{
    let w = choose_containing(a, l);
    if w == k {
        lemma_first_translation_some(b, l, k);
    } else {
        assert(b[w] == a[w]);
        lemma_first_translation_some(b, l, w);
    }
}

/// An extent that maps `l`, when the translation is defined.
proof fn choose_containing(a: Seq<Extent>, l: int) -> (w: int)
    requires
        first_translation(a, l) is Some,
    ensures
        0 <= w < a.len() && ext_contains(a[w], l),
    decreases a.len(),
{
    if ext_contains(a[0], l) {
        0
    } else {
        let w = choose_containing(a.drop_first(), l);
        assert(a.drop_first()[w] == a[w + 1]);
        w + 1
    }
}

/// Block `l` of `data`, padded with zeros to 512 bytes.
fn block_of(data: &[u8], l: usize) -> (b: Vec<u8>)
    requires
        l * 512 < data@.len(),
        data@.len() <= 65535 * 512,
    ensures
        b@ == block_image(data@, l as int),
        b@.len() == BLOCK_SIZE,
{
    let len = data.len();
    let start = l * 512;
    let end = if len < start + 512 { len } else { start + 512 };
    let mut b: Vec<u8> = Vec::new();
    let mut i: usize = start;
    while i < end
        invariant
            start <= i <= end,
            end <= data@.len(),
            b@ == data@.subrange(start as int, i as int),
        decreases end - i,
    {
        b.push(data[i]);
        i = i + 1;
        assert(b@ =~= data@.subrange(start as int, i as int));
    }
    push_zeros(&mut b, start + 512 - end);
    b
}

impl PsychicFs {
    /// Writes `data` as the content of file `name`, creating the file when
    /// it does not exist. Frees the file's old blocks, allocates new ones
    /// (one contiguous run when it can, else a block at a time) and returns
    /// whether it succeeded together with the sector writes to perform: on
    /// success each block of data at its disk block, then the file's inode
    /// sector; on failure the new file's inode sector if it created one.
    /// The bitmap and superblock are updated in memory; `sync` stores them.
    /// Given a target inode, an empty write always succeeds and changes
    /// nothing in memory, and any other write succeeds at least when one run
    /// of free blocks holds all the data once the old blocks are released.
    pub fn fs_write(&mut self, table: &[u8], name: &str, data: &[u8], now: u64) -> (r: (bool, Vec<(u64, Vec<u8>)>))
        requires
            old(self).wf(),
            table@.len() == table_len(),
            data@.len() <= 65535 * 512,
        ensures
            final(self).wf(),
            final(self).same_except_metadata(old(self)),
            !(exists|n: int| write_target(table@, name@, n)) ==> !r.0 && r.1@.len() == 0 && *final(self) == *old(self),
            r.0 ==> exists|n: int, i: Inode| {
                let nb = nblocks(data@.len() as int);
                &&& write_target(table@, name@, n)
                &&& i.wf() && i.in_use != 0 && i.size == data@.len()
                &&& (slot_matches(table@, n, name@) ==> i.name@ == table@.subrange(n * 128 + 64, n * 128 + 112))
                &&& (!slot_matches(table@, n, name@) ==> i.name@ == name_field_after(zeros(48), vstd::utf8::encode_utf8(name@)))
                &&& nb > 0 ==> i.modified_time == now && i.dirty == 1
                &&& r.1@.len() == nb + 1
                &&& forall|l: int| 0 <= l < nb ==> (#[trigger] r.1@[l]).1@ == block_image(data@, l)
                    && first_translation(i.extents@, l) == Some(r.1@[l].0 as u32)
                &&& r.1@[nb].0 == INODE_TABLE_START + n / 4
                &&& r.1@[nb].1@ == #[trigger] patched_sector(table@, n, inode_bytes(i))
                &&& nb > 0 ==> forall|j: int| 0 <= j < 8 * BITMAP_BYTES ==> #[trigger] bit_set(final(self).block_bitmap@, j) ==
                    ((bit_set(old(self).block_bitmap@, j) && !replaced_block(table@, name@, n, DATA_BLOCKS_START + j))
                        || owned_by_extents(i.extents@, DATA_BLOCKS_START + j))
                &&& forall|b: int| #[trigger] owned_by_extents(i.extents@, b) ==> DATA_BLOCKS_START <= b
                    && free_after_release(old(self).block_bitmap@, table@, name@, n, b)
                &&& forall|l: int| 0 <= l < nb ==> free_after_release(old(self).block_bitmap@, table@, name@, n,
                    (#[trigger] r.1@[l]).0 as int)
            },
            data@.len() == 0 ==> *final(self) == *old(self),
            final(self).superblock == (Superblock { free_blocks: final(self).superblock.free_blocks, ..old(self).superblock }),
            forall|n: int| write_target(table@, name@, n) && data@.len() > 0
                ==> blocks_kept_or_taken(old(self).block_bitmap@, final(self).block_bitmap@, table@, name@, n),
            forall|n: int| write_target(table@, name@, n) && (data@.len() == 0
                || room_for(*old(self), table@, name@, n, nblocks(data@.len() as int))) ==> r.0,
            !r.0 ==> r.1@.len() <= 1,
            !r.0 && r.1@.len() == 1 ==> exists|n: int, i: Inode| {
                &&& write_target(table@, name@, n) && !slot_matches(table@, n, name@)
                &&& fresh_inode(i, name@, now)
                &&& r.1@[0].0 == INODE_TABLE_START + n / 4
                &&& r.1@[0].1@ == #[trigger] patched_sector(table@, n, inode_bytes(i))
            },
    {
        let mut writes: Vec<(u64, Vec<u8>)> = Vec::new();
        let (n, mut inode, created) = match find_inode_by_name(table, name) {
            Some((n, i)) => (n, i, false),
            None => {
                if name.as_bytes().len() >= MAX_FILENAME_LEN {
                    return (false, writes);
                }
                match find_free_inode(table) {
                    Some(n) => (n, new_file_inode(name, now), true),
                    None => return (false, writes),
                }
            },
        };
        assert(write_target(table@, name@, n as int));
        let ghost i0 = inode;
        let ghost fresh_w = patched_sector(table@, n as int, inode_bytes(i0));
        let mut fail: Vec<(u64, Vec<u8>)> = Vec::new();
        if created {
            fail.push(inode_sector_write(table, n, &inode));
        }
        let len = data.len();
        let nb: usize = (len + 511) / 512;
        if nb == 0 {
            inode.size = 0;
            inode.clear_extents();
            proof {
                assert forall|b: int| !#[trigger] owned_by_extents(inode.extents@, b) by {
                    assert forall|q: int| 0 <= q < inode.extents@.len() implies (#[trigger] inode.extents@[q]).count == 0 by {}
                    lemma_empty_extents_own_nothing(inode.extents@, b);
                }
            }
            writes.push(inode_sector_write(table, n, &inode));
            return (true, writes);
        }
        proof {
            assert forall|m: int| write_target(table@, name@, m) implies m == n as int by {
                lemma_write_target_unique(table@, name@, m, n as int);
            }
            if created {
                assert(!slot_matches(table@, n as int, name@));
            } else {
                assert(i0.extents@ =~= slot_extents(table@, n as int));
            }
        }
        let mut k: usize = 0;
        while k < INLINE_EXTENTS
            invariant
                self.wf(),
                inode.wf(),
                inode.same(&i0),
                k <= INLINE_EXTENTS,
                self.same_except_metadata(old(self)),
                self.superblock == (Superblock { free_blocks: self.superblock.free_blocks, ..old(self).superblock }),
                forall|j: int| 0 <= j < 8 * BITMAP_BYTES ==> #[trigger] bit_set(self.block_bitmap@, j) ==
                    (bit_set(old(self).block_bitmap@, j) && !owned_by_extents(i0.extents@.subrange(0, k as int), DATA_BLOCKS_START + j)),
            decreases INLINE_EXTENTS - k,
        {
            let e = inode.extents[k];
            let ghost pre = i0.extents@.subrange(0, k as int);
            let ghost post = i0.extents@.subrange(0, k + 1);
            assert(post.drop_last() =~= pre);
            assert(post.last() == e);
            if !e.is_empty() {
                self.free_block_range(e.physical_block, e.count);
            }
            k = k + 1;
        }
        let ghost bm1 = self.block_bitmap@;
        let ghost room = room_for(*old(self), table@, name@, n as int, nb as int);
        let ghost room1 = exists|s: int| DATA_BLOCKS_START <= s && s + nb <= self.superblock.total_blocks
            && #[trigger] free_run(bm1, s, nb as int);
        proof {
            assert(i0.extents@.subrange(0, INLINE_EXTENTS as int) =~= i0.extents@);
            if created {
                assert forall|q: int| 0 <= q < i0.extents@.len() implies (#[trigger] i0.extents@[q]).count == 0 by {}
            }
            assert forall|j: int| 0 <= j < 8 * BITMAP_BYTES implies #[trigger] bit_set(bm1, j) ==
                (bit_set(old(self).block_bitmap@, j) && !replaced_block(table@, name@, n as int, DATA_BLOCKS_START + j)) by {
                if created {
                    lemma_empty_extents_own_nothing(i0.extents@, DATA_BLOCKS_START + j);
                }
            }
            if room {
                let s = choose|s: int| DATA_BLOCKS_START <= s && s + nb <= old(self).superblock.total_blocks
                    && #[trigger] free_after_release_run(old(self).block_bitmap@, table@, name@, n as int, s, nb as int);
                assert forall|b: int| s <= b < s + nb implies !#[trigger] allocated(bm1, b) by {
                    assert(free_after_release(old(self).block_bitmap@, table@, name@, n as int, b));
                    if created {
                        lemma_empty_extents_own_nothing(i0.extents@, b);
                    }
                    if DATA_BLOCKS_START <= b && (b - DATA_BLOCKS_START) / 8 < BITMAP_BYTES {
                        assert(bit_set(bm1, b - DATA_BLOCKS_START) == (bit_set(old(self).block_bitmap@, b - DATA_BLOCKS_START)
                            && !owned_by_extents(i0.extents@.subrange(0, INLINE_EXTENTS as int), DATA_BLOCKS_START + (b - DATA_BLOCKS_START))));
                    }
                }
                assert(free_run(bm1, s, nb as int));
                assert(room1);
            }
        }
        inode.clear_extents();
        proof {
            assert forall|b: int| !#[trigger] owned_by_extents(inode.extents@, b) by {
                assert forall|q: int| 0 <= q < inode.extents@.len() implies (#[trigger] inode.extents@[q]).count == 0 by {}
                lemma_empty_extents_own_nothing(inode.extents@, b);
            }
            assert forall|q: int| 0 <= q < inode.extents@.len() implies (#[trigger] inode.extents@[q]).physical_block
                + inode.extents@[q].count <= u32::MAX by {}
        }
        let mut allocated: usize = 0;
        while allocated < nb
            invariant
                self.wf(),
                self.same_except_metadata(old(self)),
                inode.wf(),
                inode.same_except_extents(&i0),
                nb == nblocks(len as int),
                len == data@.len(),
                nb <= 65535,
                allocated <= nb,
                appended(inode, allocated as int),
                write_target(table@, name@, n as int),
                fresh_w == patched_sector(table@, n as int, inode_bytes(i0)),
                created ==> fresh_inode(i0, name@, now) && !slot_matches(table@, n as int, name@),
                created ==> fail@.len() == 1 && fail@[0].0 == INODE_TABLE_START + n / 4 && fail@[0].1@ == fresh_w,
                !created ==> fail@.len() == 0,
                room ==> room1,
                room1 ==> allocated == 0 || allocated == nb,
                allocated == 0 ==> self.block_bitmap@ == bm1,
                forall|j: int| 0 <= j < 8 * BITMAP_BYTES ==> #[trigger] bit_set(self.block_bitmap@, j) ==
                    (bit_set(bm1, j) || owned_by_extents(inode.extents@, DATA_BLOCKS_START + j)),
                forall|b: int| #[trigger] owned_by_extents(inode.extents@, b) ==> free_run(bm1, b, 1),
                no_wrap(inode.extents@),
                forall|j: int| 0 <= j < 8 * BITMAP_BYTES ==> #[trigger] bit_set(bm1, j) ==
                    (bit_set(old(self).block_bitmap@, j) && !replaced_block(table@, name@, n as int, DATA_BLOCKS_START + j)),
                self.superblock == (Superblock { free_blocks: self.superblock.free_blocks, ..old(self).superblock }),
                self.superblock.total_blocks == old(self).superblock.total_blocks,
                forall|m: int| write_target(table@, name@, m) ==> m == n as int,
                room == room_for(*old(self), table@, name@, n as int, nb as int),
                room1 == exists|s: int| DATA_BLOCKS_START <= s && s + nb <= self.superblock.total_blocks
                    && #[trigger] free_run(bm1, s, nb as int),
            decreases nb - allocated,
        {
            let remaining = nb - allocated;
            let chunk: usize = if remaining < 65535 { remaining } else { 65535 };
            let found = self.find_contiguous_blocks(chunk);
            proof {
                if room1 && found is None {
                    assert(allocated == 0 && chunk == nb);
                    let s = choose|s: int| DATA_BLOCKS_START <= s && s + nb <= self.superblock.total_blocks
                        && #[trigger] free_run(bm1, s, nb as int);
                    assert(has_allocated(self.block_bitmap@, s, wanted_run(chunk)));
                    assert(has_allocated(bm1, s, nb as int));
                    lemma_free_run(bm1, s, nb as int);
                }
            }
            proof {
                lemma_taken(old(self).block_bitmap@, bm1, self.block_bitmap@, table@, name@, n as int);
            }
            let (start, got) = match found {
                Some(start) => (start, chunk),
                None => {
                    if chunk > 1 {
                        match self.find_contiguous_blocks(1) {
                            Some(start) => (start, 1),
                            None => return (false, fail),
                        }
                    } else {
                        return (false, fail);
                    }
                },
            };
            proof {
                assert forall|b: int| start <= b < start + got implies #[trigger] free_run(bm1, b, 1) by {
                    lemma_free_in_sub(self.block_bitmap@, bm1, b);
                }
            }
            self.allocate_contiguous_blocks(start, got as u16);
            let ghost before = inode.extents@;
            let ghost bi = inode;
            proof {
                if room1 {
                    lemma_first_free_slot(inode.extents@, 0);
                }
            }
            proof {
                lemma_taken(old(self).block_bitmap@, bm1, self.block_bitmap@, table@, name@, n as int);
            }
            if !inode.add_extent(start, got as u16) {
                return (false, fail);
            }
            proof {
                lemma_append_step(bi, inode, start, got as int, allocated as int);
                assert forall|b: int| #[trigger] owned_by_extents(inode.extents@, b) == (owned_by_extents(bi.extents@, b) || start <= b < start + got) by {
                    lemma_add_owned(bi, inode.extents@, start, got as int, allocated as int, b);
                }
                assert(free_run(bm1, start as int, 1));
                assert(free_run(bm1, start + got - 1, 1));
                lemma_add_no_wrap(bi, inode.extents@, start, got as int, allocated as int);
            }
            allocated = allocated + got;
        }
        proof {
            assert forall|b: int| #[trigger] owned_by_extents(inode.extents@, b) implies DATA_BLOCKS_START <= b
                && free_after_release(old(self).block_bitmap@, table@, name@, n as int, b) by {
                lemma_released(bm1, old(self).block_bitmap@, table@, name@, n as int, b);
            }
        }
        let mut l: usize = 0;
        while l < nb
            invariant
                forall|j: int| 0 <= j < 8 * BITMAP_BYTES ==> #[trigger] bit_set(self.block_bitmap@, j) ==
                    ((bit_set(old(self).block_bitmap@, j) && !replaced_block(table@, name@, n as int, DATA_BLOCKS_START + j))
                        || owned_by_extents(inode.extents@, DATA_BLOCKS_START + j)),
                forall|b: int| #[trigger] owned_by_extents(inode.extents@, b) ==> DATA_BLOCKS_START <= b
                    && free_after_release(old(self).block_bitmap@, table@, name@, n as int, b),
                no_wrap(inode.extents@),
                forall|j: int| 0 <= j < l ==> free_after_release(old(self).block_bitmap@, table@, name@, n as int,
                    (#[trigger] writes@[j]).0 as int),
                inode.wf(),
                nb == nblocks(len as int),
                len == data@.len(),
                nb <= 65535,
                l <= nb,
                appended(inode, nb as int),
                write_target(table@, name@, n as int),
                fresh_w == patched_sector(table@, n as int, inode_bytes(i0)),
                created ==> fresh_inode(i0, name@, now) && !slot_matches(table@, n as int, name@),
                created ==> fail@.len() == 1 && fail@[0].0 == INODE_TABLE_START + n / 4 && fail@[0].1@ == fresh_w,
                !created ==> fail@.len() == 0,
                writes@.len() == l,
                forall|j: int| 0 <= j < l ==> (#[trigger] writes@[j]).1@ == block_image(data@, j)
                    && first_translation(inode.extents@, j) == Some(writes@[j].0 as u32),
            decreases nb - l,
        {
            match inode.get_physical_block(l as u16) {
                Some(p) => {
                    assert(l * 512 < len) by {
                        assert(l < (len + 511) / 512);
                    }
                    proof {
                        lemma_translation_owned(inode.extents@, l as int);
                    }
                    writes.push((p as u64, block_of(data, l)));
                },
                None => {
                    assert(first_translation(inode.extents@, l as int) is Some);
                    return (false, fail);
                },
            }
            l = l + 1;
        }
        inode.size = len as u32;
        inode.modified_time = now;
        inode.dirty = 1;
        let ghost wb = writes@;
        writes.push(inode_sector_write(table, n, &inode));
        proof {
            assert forall|j: int| 0 <= j < nb implies (#[trigger] writes@[j]).1@ == block_image(data@, j)
                && first_translation(inode.extents@, j) == Some(writes@[j].0 as u32) by {
                assert(writes@[j] == wb[j]);
            }
        }
        (true, writes)
    }
}

/// Extent `e` maps disk block `b`.
pub open spec fn in_run(e: Extent, b: int) -> bool {
    e.count != 0 && e.physical_block <= b < e.physical_block + e.count
}

/// A block belongs to the extents exactly when one of them maps it.
proof fn lemma_owned_some(exts: Seq<Extent>, b: int)
    ensures
        owned_by_extents(exts, b) <==> exists|k: int| 0 <= k < exts.len() && #[trigger] in_run(exts[k], b),
    decreases exts.len(),
{
    if exts.len() > 0 {
        let d = exts.drop_last();
        lemma_owned_some(d, b);
        if owned_by_extents(exts, b) {
            if owned_by_extents(d, b) {
                let k = choose|k: int| 0 <= k < d.len() && #[trigger] in_run(d[k], b);
                assert(d[k] == exts[k]);
            } else {
                assert(in_run(exts[exts.len() - 1], b));
            }
        }
        if exists|k: int| 0 <= k < exts.len() && #[trigger] in_run(exts[k], b) {
            let k = choose|k: int| 0 <= k < exts.len() && #[trigger] in_run(exts[k], b);
            if k < exts.len() - 1 {
                assert(d[k] == exts[k]);
            }
        }
    }
}

/// Appending the run `start..start + got` to an inode's extents adds
/// exactly that run to the blocks they own.
/// No extent runs past the last 32-bit block number.
pub open spec fn no_wrap(exts: Seq<Extent>) -> bool {
    forall|k: int| 0 <= k < exts.len() ==> (#[trigger] exts[k]).physical_block + exts[k].count <= u32::MAX
}

/// Appending a run that ends inside the 32-bit block numbers keeps the
/// extents from wrapping.
proof fn lemma_add_no_wrap(bi: Inode, ne: Seq<Extent>, start: u32, got: int, covered: int)
    requires
        bi.wf(),
        appended(bi, covered),
        no_wrap(bi.extents@),
        1 <= got <= u16::MAX,
        start + got <= u32::MAX,
        bi.extent_count > 0 ==> bi.extents@[bi.last_extent_idx as int].count + got <= u16::MAX,
        extents_after_add(bi, start, got as u16).0,
        ne == extents_after_add(bi, start, got as u16).1,
    ensures
        no_wrap(ne),
{
    let c = bi.extent_count as int;
    let last = bi.last_extent_idx as int;
    let exts = bi.extents@;
    if c > 0 && exts[last].physical_block + exts[last].count == start {
        assert forall|k: int| 0 <= k < ne.len() implies (#[trigger] ne[k]).physical_block + ne[k].count <= u32::MAX by {
            if k != last {
                assert(ne[k] == exts[k]);
            }
        }
    } else {
        lemma_first_free_slot(exts, c);
        assert forall|k: int| 0 <= k < ne.len() implies (#[trigger] ne[k]).physical_block + ne[k].count <= u32::MAX by {
            if k != c {
                assert(ne[k] == exts[k]);
            }
        }
    }
}

/// The disk block a logical block translates to belongs to the extents,
/// when none of them wraps.
proof fn lemma_translation_owned(exts: Seq<Extent>, l: int)
    requires
        no_wrap(exts),
    ensures
        first_translation(exts, l) matches Some(p) ==> owned_by_extents(exts, p as int),
    decreases exts.len(),
{
    if exts.len() > 0 {
        let p = first_translation(exts, l);
        lemma_owned_some(exts, p->0 as int);
        if ext_contains(exts[0], l) {
            assert(exts[0].physical_block + exts[0].count <= u32::MAX);
            assert(in_run(exts[0], p->0 as int));
        } else {
            let d = exts.drop_first();
            assert forall|k: int| 0 <= k < d.len() implies (#[trigger] d[k]).physical_block + d[k].count <= u32::MAX by {
                assert(d[k] == exts[k + 1]);
            }
            lemma_translation_owned(d, l);
            if p is Some {
                lemma_owned_some(d, p->0 as int);
                let k = choose|k: int| 0 <= k < d.len() && #[trigger] in_run(d[k], p->0 as int);
                assert(d[k] == exts[k + 1]);
                assert(in_run(exts[k + 1], p->0 as int));
            }
        }
    }
}

proof fn lemma_add_owned(bi: Inode, ne: Seq<Extent>, start: u32, got: int, covered: int, b: int)
    requires
        bi.wf(),
        appended(bi, covered),
        1 <= got <= u16::MAX,
        bi.extent_count > 0 ==> bi.extents@[bi.last_extent_idx as int].count + got <= u16::MAX,
        extents_after_add(bi, start, got as u16).0,
        ne == extents_after_add(bi, start, got as u16).1,
    ensures
        owned_by_extents(ne, b) == (owned_by_extents(bi.extents@, b) || start <= b < start + got),
{
    let c = bi.extent_count as int;
    let last = bi.last_extent_idx as int;
    let exts = bi.extents@;
    lemma_owned_some(exts, b);
    lemma_owned_some(ne, b);
    if c > 0 && exts[last].physical_block + exts[last].count == start {
        assert(in_run(ne[last], b) == (in_run(exts[last], b) || start <= b < start + got));
        if owned_by_extents(exts, b) {
            let k = choose|k: int| 0 <= k < exts.len() && #[trigger] in_run(exts[k], b);
            assert(in_run(ne[k], b));
        }
        if owned_by_extents(ne, b) {
            let k = choose|k: int| 0 <= k < ne.len() && #[trigger] in_run(ne[k], b);
            if k != last {
                assert(in_run(exts[k], b));
            }
        }
        if start <= b < start + got {
            assert(in_run(ne[last], b));
        }
    } else {
        lemma_first_free_slot(exts, c);
        assert(!in_run(exts[c], b));
        assert(in_run(ne[c], b) == (start <= b < start + got));
        if owned_by_extents(exts, b) {
            let k = choose|k: int| 0 <= k < exts.len() && #[trigger] in_run(exts[k], b);
            assert(in_run(ne[k], b));
        }
        if owned_by_extents(ne, b) {
            let k = choose|k: int| 0 <= k < ne.len() && #[trigger] in_run(ne[k], b);
            if k != c {
                assert(in_run(exts[k], b));
            }
        }
        if start <= b < start + got {
            assert(in_run(ne[c], b));
        }
    }
}

proof fn lemma_append_step(bi: Inode, ai: Inode, start: u32, got: int, covered: int)
    requires
        bi.wf(),
        appended(bi, covered),
        1 <= got,
        covered + got <= 65535,
        start + got <= u32::MAX,
        ai.wf(),
        ({
            let (b, exts, last, n) = extents_after_add(bi, start, got as u16);
            &&& b
            &&& ai.extents@ == exts
            &&& ai.last_extent_idx == last
            &&& ai.extent_count == n
        }),
    ensures
        appended(ai, covered + got),
{
    let c = bi.extent_count as int;
    let last = bi.last_extent_idx as int;
    let exts = bi.extents@;
    let ne = ai.extents@;
    if c > 0 && exts[last].physical_block + exts[last].count == start {
        // The run continues the last extent, which grows.
        assert forall|l: int| 0 <= l < covered + got implies (#[trigger] first_translation(ne, l)) is Some by {
            if l < covered {
                lemma_translation_unchanged(exts, ne, l, last);
            } else {
                lemma_first_translation_some(ne, l, last);
            }
        }
    } else {
        let slot = first_free_slot(exts);
        lemma_first_free_slot(exts, c);
        assert(slot == c);
        assert forall|l: int| 0 <= l < covered + got implies (#[trigger] first_translation(ne, l)) is Some by {
            if l < covered {
                lemma_translation_unchanged(exts, ne, l, c);
            } else {
                lemma_first_translation_some(ne, l, c);
            }
        }
    }
}

/// A written file reads back as written: for an inode of `d.len()` bytes
/// whose blocks are all mapped, reading the blocks that hold
/// `block_image(d, l)` gives `d`.
pub proof fn lemma_write_then_read(d: Seq<u8>, i: Inode)
    requires
        i.size == d.len(),
        d.len() <= 65535 * 512,
        forall|l: int| 0 <= l < nblocks(d.len() as int) ==> (#[trigger] first_translation(i.extents@, l)) is Some,
    ensures
        file_data(i.size as int, block_map(i), Seq::new(nblocks(d.len() as int) as nat, |l: int| block_image(d, l)),
            nblocks(i.size as int)) == d,
{
    let trans = block_map(i);
    assert forall|l: int| 0 <= l < trans.len() implies (#[trigger] trans[l]) is Some by {
        assert(l % 65536 == l);
    }
    lemma_read_after_write(d, trans);
}

/// The superblock a fresh file system starts with.
pub open spec fn fresh_superblock() -> Superblock {
    Superblock {
        magic: FS_MAGIC,
        version: FS_VERSION,
        total_blocks: TOTAL_BLOCKS,
        free_blocks: (TOTAL_BLOCKS - DATA_BLOCKS_START) as u32,
        total_inodes: MAX_FILES as u32,
        free_inodes: MAX_FILES as u32,
        first_data_block: DATA_BLOCKS_START as u32,
        block_size: BLOCK_SIZE as u16,
        dirty: 0,
    }
}

/// The sector writes that format the disk: the fresh superblock to sector
/// 0, zeros over the inode table (sectors 1..=64) and over the bitmap
/// (sectors 65 and 66), in that order.
pub fn fs_format() -> (w: Vec<(u64, Vec<u8>)>)
    ensures
        w@.len() == 67,
        w@[0].0 == SUPERBLOCK_SECTOR && w@[0].1@ == superblock_bytes(fresh_superblock()),
        forall|k: int| 1 <= k < 67 ==> (#[trigger] w@[k]).0 == k && w@[k].1@ == zeros(512),
{
    let sb = Superblock {
        magic: FS_MAGIC,
        version: FS_VERSION,
        total_blocks: TOTAL_BLOCKS,
        free_blocks: TOTAL_BLOCKS - DATA_BLOCKS_START as u32,
        total_inodes: MAX_FILES as u32,
        free_inodes: MAX_FILES as u32,
        first_data_block: DATA_BLOCKS_START as u32,
        block_size: BLOCK_SIZE as u16,
        dirty: 0,
    };
    let mut w: Vec<(u64, Vec<u8>)> = Vec::new();
    w.push((SUPERBLOCK_SECTOR, superblock_to_bytes(&sb)));
    let mut sector: u64 = INODE_TABLE_START;
    while sector <= BITMAP_SECTOR + 1
        invariant
            1 <= sector <= 67,
            w@.len() == sector,
            w@[0].0 == SUPERBLOCK_SECTOR && w@[0].1@ == superblock_bytes(fresh_superblock()),
            forall|k: int| 1 <= k < sector ==> (#[trigger] w@[k]).0 == k && w@[k].1@ == zeros(512),
        decreases 67 - sector,
    {
        let mut z: Vec<u8> = Vec::new();
        push_zeros(&mut z, 512);
        assert(z@ =~= zeros(512));
        w.push((sector, z));
        sector = sector + 1;
    }
    w
}

/// Mounts the file system from the contents of the superblock sector and
/// the two bitmap sectors: `None` when the magic number is wrong. The
/// superblock is kept marked dirty while mounted.
pub fn fs_mount(sb_sector: &[u8], bitmap1: &[u8], bitmap2: &[u8]) -> (r: Option<PsychicFs>)
    requires
        sb_sector@.len() == 512,
        bitmap1@.len() == 512,
        bitmap2@.len() == 512,
    ensures
        superblock_of(sb_sector@).magic != FS_MAGIC ==> r is None,
        superblock_of(sb_sector@).magic == FS_MAGIC ==> (r matches Some(fs) && {
            &&& fs.wf()
            &&& fs.mounted
            &&& fs.superblock == (Superblock { dirty: 1, ..superblock_of(sb_sector@) })
            &&& fs.block_bitmap@ == bitmap1@ + bitmap2@
            &&& fs.superblock_dirty && !fs.bitmap_dirty
            &&& fs.cache_hits == 0 && fs.cache_misses == 0
            &&& forall|i: int| 0 <= i < CACHE_SIZE ==> (#[trigger] fs.cache@[i]).access_count == 0
        }),
{
    let sb = bytes_to_superblock(sb_sector);
    if sb.magic != FS_MAGIC {
        return None;
    }
    let mut fs = PsychicFs::new();
    fs.read_bitmap_from_disk(bitmap1, bitmap2);
    fs.superblock = sb;
    fs.mounted = true;
    fs.superblock.dirty = 1;
    fs.superblock_dirty = true;
    Some(fs)
}

} // verus!
