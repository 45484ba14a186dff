//! A split virtqueue: the descriptor table, the available ring and the
//! free-descriptor map as the driver keeps them. The caller mirrors the
//! table and the ring into the memory shared with the device and hands
//! back what the device put in the used ring.
use vstd::prelude::*;

verus! {

pub const QUEUE_SIZE: u16 = 128;
pub const VIRTQ_DESC_F_NEXT: u16 = 1;
pub const VIRTQ_DESC_F_WRITE: u16 = 2;
pub const VIRTQ_AVAIL_F_NO_INTERRUPT: u16 = 1;
pub const PAGE_SIZE: usize = 4096;

/// A descriptor: a buffer's address and length, flags, and the next
/// descriptor of its chain.
#[derive(Clone, Copy, PartialEq, Eq, Structural)]
pub struct VirtqDesc {
    pub addr: u64,
    pub len: u32,
    pub flags: u16,
    pub next: u16,
}

impl VirtqDesc {
    pub fn new() -> (d: Self)
        ensures
            d == (VirtqDesc { addr: 0, len: 0, flags: 0, next: 0 }),
    {
        VirtqDesc { addr: 0, len: 0, flags: 0, next: 0 }
    }
}

/// An entry of the used ring: the head of a finished chain and the number
/// of bytes the device wrote.
#[derive(Clone, Copy, PartialEq, Eq, Structural)]
pub struct VirtqUsedElem {
    pub id: u32,
    pub len: u32,
}

/// `x` rounded up to a multiple of the power of two `a`.
pub open spec fn align_up(x: int, a: int) -> int {
    ((x + a - 1) / a) * a
}

/// Indices of the free descriptors among the first `n`, ascending.
pub open spec fn free_list(free: Seq<bool>, n: int) -> Seq<u16>
    decreases n,
{
    if n <= 0 {
        Seq::empty()
    } else if free[n - 1] {
        free_list(free, n - 1).push((n - 1) as u16)
    } else {
        free_list(free, n - 1)
    }
}

/// The driver's side of a virtqueue.
pub struct Virtqueue {
    pub queue_size: u16,
    pub desc: Vec<VirtqDesc>,
    pub avail_flags: u16,
    pub avail_idx: u16,
    pub avail_ring: Vec<u16>,
    pub free_desc: Vec<bool>,
    pub last_used_idx: u16,
    pub next_avail_idx: u16,
    pub desc_phys: u64,
    pub avail_phys: u64,
    pub used_phys: u64,
}

/// The queue size is a power of two.
pub open spec fn power_of_two(q: u16) -> bool {
    q != 0 && (q & (q - 1) as u16) == 0
}

impl Virtqueue {
    /// Tables of 128 entries; descriptors past the queue size are never
    /// free.
    pub open spec fn wf(&self) -> bool {
        &&& self.queue_size <= QUEUE_SIZE
        &&& self.desc@.len() == QUEUE_SIZE
        &&& self.avail_ring@.len() == QUEUE_SIZE
        &&& self.free_desc@.len() == QUEUE_SIZE
    }

    /// The free descriptors, ascending.
    pub open spec fn free(&self) -> Seq<u16> {
        free_list(self.free_desc@, self.queue_size as int)
    }

    /// Offsets of the queue's parts in its memory: (size of the descriptor
    /// table, offset of the available ring, offset of the used ring, which
    /// starts on a 4-byte boundary).
    pub fn size_requirements(queue_size: u16) -> (r: (usize, usize, usize))
        ensures
            r.0 == 16 * queue_size,
            r.1 == 16 * queue_size,
            r.2 == align_up(16 * queue_size + 6 + 2 * queue_size, 4),
    {
        let desc_size = 16 * queue_size as usize;
        let avail_size = 6 + 2 * queue_size as usize;
        let avail_offset = desc_size;
        let end = avail_offset + avail_size;
        let used_offset = (end + 3) / 4 * 4;
        (desc_size, avail_offset, used_offset)
    }

    /// A queue of `queue_size` descriptors, all free, laid out from
    /// physical address `base_phys` in one page. The size must be a power
    /// of two of at most 128.
    pub fn new(base_phys: u64, queue_size: u16) -> (r: Result<Self, &'static str>)
        requires
            base_phys + PAGE_SIZE <= u64::MAX,
        ensures
            !(power_of_two(queue_size) && queue_size <= QUEUE_SIZE) ==> (r matches Err(e) && e@ == "Invalid queue size"@),
            power_of_two(queue_size) && queue_size <= QUEUE_SIZE ==> (r matches Ok(q) && {
                let used_off = align_up(18 * queue_size + 6, 4);
                &&& q.wf()
                &&& q.queue_size == queue_size
                &&& forall|i: int| 0 <= i < QUEUE_SIZE ==> q.free_desc@[i] == (i < queue_size)
                &&& forall|i: int| 0 <= i < QUEUE_SIZE ==> #[trigger] q.desc@[i] == (VirtqDesc { addr: 0, len: 0, flags: 0, next: 0 })
                &&& forall|i: int| 0 <= i < QUEUE_SIZE ==> #[trigger] q.avail_ring@[i] == 0
                &&& q.avail_flags == VIRTQ_AVAIL_F_NO_INTERRUPT && q.avail_idx == 0
                &&& q.last_used_idx == 0 && q.next_avail_idx == 0
                &&& q.desc_phys == base_phys
                &&& q.avail_phys == base_phys + 16 * queue_size
                &&& q.used_phys == base_phys + used_off
            }),
    {
        if !(queue_size != 0 && (queue_size & (queue_size - 1)) == 0) || queue_size > QUEUE_SIZE {
            return Err("Invalid queue size");
        }
        let (_desc_size, avail_offset, used_offset) = Self::size_requirements(queue_size);
        let mut desc: Vec<VirtqDesc> = Vec::new();
        let mut avail_ring: Vec<u16> = Vec::new();
        let mut free_desc: Vec<bool> = Vec::new();
        let mut i: u16 = 0;
        while i < QUEUE_SIZE
            invariant
                i <= QUEUE_SIZE,
                desc@.len() == i && avail_ring@.len() == i && free_desc@.len() == i,
                forall|k: int| 0 <= k < i ==> #[trigger] desc@[k] == (VirtqDesc { addr: 0, len: 0, flags: 0, next: 0 }),
                forall|k: int| 0 <= k < i ==> #[trigger] avail_ring@[k] == 0,
                forall|k: int| 0 <= k < i ==> free_desc@[k] == (k < queue_size),
            decreases QUEUE_SIZE - i,
        {
            desc.push(VirtqDesc::new());
            avail_ring.push(0);
            free_desc.push(i < queue_size);
            i = i + 1;
        }
        Ok(Virtqueue {
            queue_size,
            desc,
            avail_flags: VIRTQ_AVAIL_F_NO_INTERRUPT,
            avail_idx: 0,
            avail_ring,
            free_desc,
            last_used_idx: 0,
            next_avail_idx: 0,
            desc_phys: base_phys,
            avail_phys: base_phys + avail_offset as u64,
            used_phys: base_phys + used_offset as u64,
        })
    }

    /// Takes the lowest free descriptor.
    pub fn alloc_desc(&mut self) -> (r: Option<u16>)
        requires
            old(self).wf(),
        ensures
            final(self).wf(),
            old(self).free().len() == 0 ==> r is None && *final(self) == *old(self),
            old(self).free().len() > 0 ==> r == Some(old(self).free()[0])
                && final(self).free_desc@ == old(self).free_desc@.update(old(self).free()[0] as int, false)
                && *final(self) == (Virtqueue { free_desc: final(self).free_desc, ..*old(self) }),
    {
        let n = self.queue_size;
        let mut i: u16 = 0;
        while i < n
            invariant
                self.wf(),
                *self == *old(self),
                n == self.queue_size,
                i <= n,
                forall|k: int| 0 <= k < i ==> !self.free_desc@[k],
            decreases n - i,
        {
            if self.free_desc[i as usize] {
                proof { lemma_first_free(self.free_desc@, n as int, i as int); }
                self.free_desc.set(i as usize, false);
                return Some(i);
            }
            i = i + 1;
        }
        proof { lemma_none_free(self.free_desc@, n as int); }
        None
    }

    /// Returns a descriptor to the free ones (ignoring indices past the
    /// queue size).
    pub fn free_desc(&mut self, idx: u16)
        requires
            old(self).wf(),
        ensures
            final(self).wf(),
            idx < old(self).queue_size ==> final(self).free_desc@ == old(self).free_desc@.update(idx as int, true),
            idx >= old(self).queue_size ==> final(self).free_desc@ == old(self).free_desc@,
            *final(self) == (Virtqueue { free_desc: final(self).free_desc, ..*old(self) }),
    {
        if idx < self.queue_size {
            self.free_desc.set(idx as usize, true);
        }
    }

    /// The physical addresses of the descriptor table, available ring and
    /// used ring.
    pub fn get_addresses(&self) -> (r: (u64, u64, u64))
        ensures
            r == (self.desc_phys, self.avail_phys, self.used_phys),
    {
        (self.desc_phys, self.avail_phys, self.used_phys)
    }

    pub fn size(&self) -> (r: u16)
        ensures
            r == self.queue_size,
    {
        self.queue_size
    }
}

proof fn lemma_free_list_prefix(free: Seq<bool>, n: int, i: int)
    requires
        0 <= i <= n,
        forall|k: int| 0 <= k < i ==> !free[k],
    ensures
        free_list(free, i).len() == 0,
    decreases i,
{
    if i > 0 {
        lemma_free_list_prefix(free, n, i - 1);
    }
}

proof fn lemma_free_list_first(free: Seq<bool>, i: int, n: int)
    requires
        0 <= i < n,
        forall|k: int| 0 <= k < i ==> !free[k],
        free[i],
    ensures
        free_list(free, n).len() > 0 && free_list(free, n)[0] == i as u16,
    decreases n,
{
    if n == i + 1 {
        lemma_free_list_prefix(free, n, i);
    } else {
        lemma_free_list_first(free, i, n - 1);
    }
}

proof fn lemma_first_free(free: Seq<bool>, n: int, i: int)
    requires
        0 <= i < n,
        forall|k: int| 0 <= k < i ==> !free[k],
        free[i],
    ensures
        free_list(free, n).len() > 0 && free_list(free, n)[0] == i as u16,
{
    lemma_free_list_first(free, i, n);
}

proof fn lemma_none_free(free: Seq<bool>, n: int)
    requires
        n >= 0,
        forall|k: int| 0 <= k < n ==> !free[k],
    ensures
        free_list(free, n).len() == 0,
{
    lemma_free_list_prefix(free, n, n);
}

/// The available ring as the device reads it.
pub struct VirtqAvail {
    pub flags: u16,
    pub idx: u16,
    pub ring: Vec<u16>,
    pub used_event: u16,
}

/// The used ring as the device writes it.
pub struct VirtqUsed {
    pub flags: u16,
    pub idx: u16,
    pub ring: Vec<VirtqUsedElem>,
    pub avail_event: u16,
}

impl VirtqUsed {
    /// An empty used ring of 128 entries.
    pub fn new() -> (u: Self)
        ensures
            u.flags == 0 && u.idx == 0 && u.avail_event == 0,
            u.ring@.len() == QUEUE_SIZE,
            forall|i: int| 0 <= i < QUEUE_SIZE ==> #[trigger] u.ring@[i] == (VirtqUsedElem { id: 0, len: 0 }),
    {
        let mut ring: Vec<VirtqUsedElem> = Vec::new();
        let mut i: usize = 0;
        while i < QUEUE_SIZE as usize
            invariant
                i <= QUEUE_SIZE,
                ring@.len() == i,
                forall|k: int| 0 <= k < i ==> #[trigger] ring@[k] == (VirtqUsedElem { id: 0, len: 0 }),
            decreases QUEUE_SIZE - i,
        {
            ring.push(VirtqUsedElem { id: 0, len: 0 });
            i = i + 1;
        }
        VirtqUsed { flags: 0, idx: 0, ring, avail_event: 0 }
    }

    /// The entry the driver reads next when its last seen index is
    /// `last_used_idx`.
    pub fn entry(&self, last_used_idx: u16) -> (e: VirtqUsedElem)
        requires
            self.ring@.len() == QUEUE_SIZE,
        ensures
            e == self.ring@[(last_used_idx % QUEUE_SIZE) as int],
    {
        self.ring[(last_used_idx % QUEUE_SIZE) as usize]
    }
}

impl Virtqueue {
    /// The available ring to mirror into the shared memory.
    pub fn avail(&self) -> (a: VirtqAvail)
        requires
            self.wf(),
        ensures
            a.flags == self.avail_flags,
            a.idx == self.avail_idx,
            a.ring@ == self.avail_ring@,
            a.used_event == 0,
    {
        VirtqAvail {
            flags: self.avail_flags,
            idx: self.avail_idx,
            ring: vstd::slice::slice_to_vec(self.avail_ring.as_slice()),
            used_event: 0,
        }
    }
}

/// The free list holds free descriptors below `n`, ascending.
pub proof fn lemma_free_list_bounds(m: Seq<bool>, n: int)
    requires
        0 <= n <= m.len(),
        n <= QUEUE_SIZE,
    ensures
        forall|j: int| 0 <= j < free_list(m, n).len() ==> 0 <= #[trigger] free_list(m, n)[j] < n && m[free_list(m, n)[j] as int],
    decreases n,
{
    if n > 0 {
        lemma_free_list_bounds(m, n - 1);
        let l = free_list(m, n - 1);
        if m[n - 1] {
            assert forall|j: int| 0 <= j < free_list(m, n).len() implies 0 <= #[trigger] free_list(m, n)[j] < n
                && m[free_list(m, n)[j] as int] by {
                if j < l.len() { assert(free_list(m, n)[j] == l[j]); }
            }
        }
    }
}

proof fn lemma_free_list_same(a: Seq<bool>, b: Seq<bool>, n: int)
    requires
        n >= 0,
        forall|k: int| 0 <= k < n ==> a[k] == b[k],
    ensures
        free_list(a, n) == free_list(b, n),
    decreases n,
{
    if n > 0 {
        lemma_free_list_same(a, b, n - 1);
    }
}

proof fn lemma_free_list_take(m: Seq<bool>, j: int, n: int)
    requires
        0 <= j < n <= m.len(),
        m[j],
    ensures
        free_list(m.update(j, false), n).len() == free_list(m, n).len() - 1,
    decreases n,
{
    let u = m.update(j, false);
    if j == n - 1 {
        lemma_free_list_same(u, m, n - 1);
    } else {
        lemma_free_list_take(m, j, n - 1);
    }
}

/// Taking the lowest free descriptor leaves one fewer free.
pub proof fn lemma_alloc_shrinks_free(m: Seq<bool>, n: int)
    requires
        0 <= n <= m.len(),
        n <= QUEUE_SIZE,
        free_list(m, n).len() > 0,
    ensures
        free_list(m, n)[0] < n,
        free_list(m.update(free_list(m, n)[0] as int, false), n).len() == free_list(m, n).len() - 1,
{
    lemma_free_list_bounds(m, n);
    lemma_free_list_take(m, free_list(m, n)[0] as int, n);
}

/// Taking the first free descriptor leaves the rest of the free list.
pub proof fn lemma_alloc_takes_first(m: Seq<bool>, n: int)
    requires
        0 <= n <= m.len(),
        n <= QUEUE_SIZE,
        free_list(m, n).len() > 0,
    ensures
        free_list(m.update(free_list(m, n)[0] as int, false), n) == free_list(m, n).drop_first(),
    decreases n,
{
    let f = free_list(m, n)[0] as int;
    let u = m.update(f, false);
    let l = free_list(m, n - 1);
    lemma_free_list_bounds(m, n);
    lemma_free_list_bounds(m, n - 1);
    if l.len() == 0 {
        assert(m[n - 1]);
        assert(f == n - 1);
        lemma_free_list_same(u, m, n - 1);
        assert(free_list(u, n) == free_list(u, n - 1));
        assert(free_list(m, n).drop_first() =~= Seq::<u16>::empty());
    } else {
        assert(l[0] as int == f);
        lemma_alloc_takes_first(m, n - 1);
        assert(free_list(u, n - 1) == l.drop_first());
        assert(u[n - 1] == m[n - 1]);
        if m[n - 1] {
            assert(free_list(m, n).drop_first() =~= l.drop_first().push((n - 1) as u16));
        }
    }
}

/// The descriptor table after writing buffers `0..k` of a chain.
pub open spec fn chain_written(desc: Seq<VirtqDesc>, ids: Seq<u16>, bufs: Seq<(u64, u32, bool)>, k: int) -> Seq<VirtqDesc>
    decreases k,
{
    if k <= 0 {
        desc
    } else {
        let i = k - 1;
        let last = i == bufs.len() - 1;
        chain_written(desc, ids, bufs, i).update(ids[i] as int, VirtqDesc {
            addr: bufs[i].0,
            len: bufs[i].1,
            flags: ((if bufs[i].2 { VIRTQ_DESC_F_WRITE } else { 0 }) | (if last { 0 } else { VIRTQ_DESC_F_NEXT })) as u16,
            next: if last { 0 } else { ids[i + 1] },
        })
    }
}

/// The chain from descriptor `d` ends within `k` further links, every
/// descriptor on it inside the table.
pub open spec fn chain_ends(desc: Seq<VirtqDesc>, d: u16, k: nat) -> bool
    decreases k,
{
    d < QUEUE_SIZE && (desc[d as int].flags & VIRTQ_DESC_F_NEXT == 0
        || (k > 0 && chain_ends(desc, desc[d as int].next, (k - 1) as nat)))
}

/// The descriptors of the chain from `d`, in order.
pub open spec fn chain_nodes(desc: Seq<VirtqDesc>, d: u16, k: nat) -> Seq<u16>
    decreases k,
{
    if desc[d as int].flags & VIRTQ_DESC_F_NEXT == 0 || k == 0 {
        seq![d]
    } else {
        seq![d] + chain_nodes(desc, desc[d as int].next, (k - 1) as nat)
    }
}

impl Virtqueue {
    /// Puts a chain of buffers (address, length, device-writable) in the
    /// queue: the head descriptor is given, the others are taken from the
    /// free ones; the descriptors are filled and linked and the head is
    /// made available. Fails on an empty list, a buffer with a null address
    /// or no length, or too few free descriptors (which are then returned).
    pub fn add_buf(&mut self, head_idx: u16, buffers: &[(u64, u32, bool)]) -> (r: Result<(), &'static str>)
        requires
            old(self).wf(),
            head_idx < QUEUE_SIZE,
        ensures
            final(self).wf(),
            buffers@.len() == 0 ==> (r matches Err(e) && e@ == "Empty buffer list"@ && *final(self) == *old(self)),
            buffers@.len() > 0 && (exists|i: int| 0 <= i < buffers@.len() && ((#[trigger] buffers@[i]).1 == 0 || buffers@[i].0 == 0))
                ==> (r matches Err(e) && e@ == "Invalid buffer"@ && *final(self) == *old(self)),
            buffers@.len() > 0 && (forall|i: int| 0 <= i < buffers@.len() ==> (#[trigger] buffers@[i]).1 != 0 && buffers@[i].0 != 0)
                && old(self).free().len() < buffers@.len() - 1
                ==> (r matches Err(e) && e@ == "Out of descriptors"@ && *final(self) == *old(self)),
            buffers@.len() > 0 && (forall|i: int| 0 <= i < buffers@.len() ==> (#[trigger] buffers@[i]).1 != 0 && buffers@[i].0 != 0)
                && old(self).free().len() >= buffers@.len() - 1 ==> {
                let taken = old(self).free().subrange(0, buffers@.len() - 1);
                let ids = seq![head_idx] + taken;
                &&& r is Ok
                &&& final(self).desc@ == chain_written(old(self).desc@, ids, buffers@, buffers@.len() as int)
                &&& forall|t: int| 0 <= t < QUEUE_SIZE ==> #[trigger] final(self).free_desc@[t] == (old(self).free_desc@[t]
                    && !(exists|k: int| 0 <= k < buffers@.len() - 1 && old(self).free()[k] == t))
                &&& final(self).avail_ring@ == old(self).avail_ring@.update((old(self).next_avail_idx % QUEUE_SIZE) as int, head_idx)
                &&& final(self).avail_idx == old(self).avail_idx.wrapping_add(1)
                &&& final(self).next_avail_idx == old(self).next_avail_idx.wrapping_add(1)
                &&& final(self).queue_size == old(self).queue_size && final(self).last_used_idx == old(self).last_used_idx
                &&& final(self).avail_flags == old(self).avail_flags
                &&& final(self).get_addresses_spec() == old(self).get_addresses_spec()
            },
    {
        let n = buffers.len();
        if n == 0 {
            return Err("Empty buffer list");
        }
        let mut k: usize = 0;
        while k < n
            invariant
                old(self).wf(),
                *self == *old(self),
                n == buffers@.len(),
                k <= n,
                forall|i: int| 0 <= i < k ==> (#[trigger] buffers@[i]).1 != 0 && buffers@[i].0 != 0,
            decreases n - k,
        {
            let (addr, len, _) = buffers[k];
            if len == 0 || addr == 0 {
                assert(buffers@[k as int].1 == 0 || buffers@[k as int].0 == 0);
                return Err("Invalid buffer");
            }
            k = k + 1;
        }
        let ghost m0 = self.free_desc@;
        let ghost f0 = self.free();
        let qs = self.queue_size;
        // The free descriptors, lowest first, as alloc_desc hands them out.
        let mut list: Vec<u16> = Vec::new();
        let mut t: u16 = 0;
        while t < qs
            invariant
                self.wf(),
                *self == *old(self),
                qs == self.queue_size,
                t <= qs,
                list@ == free_list(self.free_desc@, t as int),
            decreases qs - t,
        {
            if self.free_desc[t as usize] {
                list.push(t);
            }
            t = t + 1;
        }
        proof { lemma_free_list_bounds(m0, qs as int); }
        if list.len() < n - 1 {
            return Err("Out of descriptors");
        }
        let mut ids: Vec<u16> = Vec::new();
        ids.push(head_idx);
        let mut i: usize = 0;
        while i < n - 1
            invariant
                self.wf(),
                *self == (Virtqueue { free_desc: self.free_desc, ..*old(self) }),
                m0 == old(self).free_desc@,
                f0 == old(self).free(),
                list@ == f0,
                n == buffers@.len(),
                n - 1 <= f0.len(),
                i <= n - 1,
                ids@ == seq![head_idx] + f0.subrange(0, i as int),
                forall|j: int| 0 <= j < f0.len() ==> 0 <= #[trigger] f0[j] < self.queue_size && m0[f0[j] as int],
                forall|t: int| 0 <= t < QUEUE_SIZE ==> #[trigger] self.free_desc@[t] == (m0[t] && !(exists|k: int| 0 <= k < i && f0[k] == t)),
            decreases n - 1 - i,
        {
            let d = list[i];
            self.free_desc.set(d as usize, false);
            proof {
                assert forall|t: int| 0 <= t < QUEUE_SIZE implies #[trigger] self.free_desc@[t]
                    == (m0[t] && !(exists|k: int| 0 <= k < i + 1 && f0[k] == t)) by {
                    if t == d as int {
                        assert(f0[i as int] == t);
                    }
                }
            }
            ids.push(d);
            i = i + 1;
            assert(ids@ =~= seq![head_idx] + f0.subrange(0, i as int));
        }
        let ghost d0 = self.desc@;
        proof {
            assert forall|j: int| 0 <= j < n implies #[trigger] ids@[j] < QUEUE_SIZE by {
                if j > 0 { assert(ids@[j] == f0[j - 1]); }
            }
        }
        let mut k: usize = 0;
        while k < n
            invariant
                self.wf(),
                n == buffers@.len(),
                n >= 1,
                ids@.len() == n,
                forall|j: int| 0 <= j < n ==> #[trigger] ids@[j] < QUEUE_SIZE,
                k <= n,
                self.desc@ == chain_written(d0, ids@, buffers@, k as int),
                d0 == old(self).desc@,
                ids@ == seq![head_idx] + f0.subrange(0, n - 1),
                f0 == old(self).free(),
                m0 == old(self).free_desc@,
                forall|t: int| 0 <= t < QUEUE_SIZE ==> #[trigger] self.free_desc@[t] == (m0[t] && !(exists|k: int| 0 <= k < n - 1 && f0[k] == t)),
                *self == (Virtqueue { desc: self.desc, free_desc: self.free_desc, ..*old(self) }),
            decreases n - k,
        {
            let (addr, len, writable) = buffers[k];
            let d = ids[k] as usize;
            let last = k == n - 1;
            let flags: u16 = (if writable { VIRTQ_DESC_F_WRITE } else { 0 }) | (if last { 0 } else { VIRTQ_DESC_F_NEXT });
            let next: u16 = if last { 0 } else { ids[k + 1] };
            self.desc.set(d, VirtqDesc { addr, len, flags, next });
            k = k + 1;
        }
        let slot = (self.next_avail_idx % QUEUE_SIZE) as usize;
        self.avail_ring.set(slot, head_idx);
        self.avail_idx = self.avail_idx.wrapping_add(1);
        self.next_avail_idx = self.next_avail_idx.wrapping_add(1);
        Ok(())
    }

    /// Whether the chain the device names by `head` ends inside the table
    /// within the queue's length, as `get_used` needs.
    pub fn chain_ok(&self, head: u16) -> (b: bool)
        requires
            self.wf(),
        ensures
            b == chain_ends(self.desc@, head, QUEUE_SIZE as nat),
    {
        let mut d: u16 = head;
        let mut k: u16 = QUEUE_SIZE;
        loop
            invariant
                self.wf(),
                k <= QUEUE_SIZE,
                chain_ends(self.desc@, head, QUEUE_SIZE as nat) == chain_ends(self.desc@, d, k as nat),
            decreases k,
        {
            if d >= QUEUE_SIZE {
                return false;
            }
            if self.desc[d as usize].flags & VIRTQ_DESC_F_NEXT == 0 {
                return true;
            }
            if k == 0 {
                return false;
            }
            d = self.desc[d as usize].next;
            k = k - 1;
        }
    }

    pub open spec fn get_addresses_spec(&self) -> (u64, u64, u64) {
        (self.desc_phys, self.avail_phys, self.used_phys)
    }

    /// Takes the next used entry, given the used ring's index and the entry
    /// at `last_used_idx` that the device wrote: `None` when the device has
    /// used nothing new; otherwise the entry's chain is freed and its head
    /// and length returned.
    pub fn get_used(&mut self, used_idx: u16, elem: VirtqUsedElem) -> (r: Option<(u16, u32)>)
        requires
            old(self).wf(),
            used_idx != old(self).last_used_idx ==> chain_ends(old(self).desc@, elem.id as u16, QUEUE_SIZE as nat),
        ensures
            final(self).wf(),
            used_idx == old(self).last_used_idx ==> r is None && *final(self) == *old(self),
            used_idx != old(self).last_used_idx ==> {
                let nodes = chain_nodes(old(self).desc@, elem.id as u16, QUEUE_SIZE as nat);
                &&& r == Some((elem.id as u16, elem.len))
                &&& final(self).last_used_idx == old(self).last_used_idx.wrapping_add(1)
                &&& forall|t: int| 0 <= t < QUEUE_SIZE ==> #[trigger] final(self).free_desc@[t]
                    == (old(self).free_desc@[t] || (t < old(self).queue_size && exists|k: int| 0 <= k < nodes.len() && nodes[k] == t))
                &&& *final(self) == (Virtqueue { free_desc: final(self).free_desc, last_used_idx: final(self).last_used_idx, ..*old(self) })
            },
    {
        if self.last_used_idx == used_idx {
            return None;
        }
        self.last_used_idx = self.last_used_idx.wrapping_add(1);
        let mut d = elem.id as u16;
        let mut fuel: u16 = QUEUE_SIZE;
        let ghost all = chain_nodes(self.desc@, d, QUEUE_SIZE as nat);
        let ghost m0 = self.free_desc@;
        let ghost mut p: Seq<u16> = Seq::empty();
        assert(all == p + chain_nodes(self.desc@, d, fuel as nat));
        loop
            invariant_except_break
                all == p + chain_nodes(self.desc@, d, fuel as nat),
            invariant
                self.wf(),
                self.desc@ == old(self).desc@,
                *self == (Virtqueue { free_desc: self.free_desc, last_used_idx: self.last_used_idx, ..*old(self) }),
                self.last_used_idx == old(self).last_used_idx.wrapping_add(1),
                m0 == old(self).free_desc@,
                chain_ends(self.desc@, d, fuel as nat),
                fuel <= QUEUE_SIZE,
                all == chain_nodes(old(self).desc@, elem.id as u16, QUEUE_SIZE as nat),
                forall|t: int| 0 <= t < QUEUE_SIZE ==> #[trigger] self.free_desc@[t]
                    == (m0[t] || (t < self.queue_size && exists|k: int| 0 <= k < p.len() && p[k] == t)),
            ensures
                forall|t: int| 0 <= t < QUEUE_SIZE ==> #[trigger] self.free_desc@[t]
                    == (m0[t] || (t < self.queue_size && exists|k: int| 0 <= k < all.len() && all[k] == t)),
                self.wf(),
                *self == (Virtqueue { free_desc: self.free_desc, last_used_idx: self.last_used_idx, ..*old(self) }),
                self.last_used_idx == old(self).last_used_idx.wrapping_add(1),
            decreases fuel,
        {
            let desc = self.desc[d as usize];
            let has_next = (desc.flags & VIRTQ_DESC_F_NEXT) != 0;
            let ghost before = self.free_desc@;
            self.free_desc(d);
            let ghost p2 = p.push(d);
            assert(all == p + chain_nodes(self.desc@, d, fuel as nat));
            proof {
                assert forall|t: int| 0 <= t < QUEUE_SIZE implies #[trigger] self.free_desc@[t]
                    == (m0[t] || (t < self.queue_size && exists|k: int| 0 <= k < p2.len() && p2[k] == t)) by {
                    if t == d as int && t < self.queue_size {
                        assert(p2[p.len() as int] == t);
                    }
                    if exists|k: int| 0 <= k < p.len() && p[k] == t {
                        let k = choose|k: int| 0 <= k < p.len() && p[k] == t;
                        assert(p2[k] == t);
                    }
                    if exists|k: int| 0 <= k < p2.len() && p2[k] == t {
                        let k = choose|k: int| 0 <= k < p2.len() && p2[k] == t;
                        if k < p.len() { assert(p[k] == t); }
                    }
                }
            }
            let ghost old_p = p;
            proof { p = p2; }
            if !has_next {
                proof {
                    assert(chain_nodes(self.desc@, d, fuel as nat) == seq![d]);
                    assert(all =~= p2);
                }
                break;
            }
            proof {
                assert(fuel > 0);
                assert(chain_nodes(self.desc@, d, fuel as nat) == seq![d] + chain_nodes(self.desc@, desc.next, (fuel - 1) as nat));
                assert(all =~= p2 + chain_nodes(self.desc@, desc.next, (fuel - 1) as nat));
            }
            d = desc.next;
            fuel = fuel - 1;
        }
        Some((elem.id as u16, elem.len))
    }
}

} // verus!
