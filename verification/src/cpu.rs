//! Processor identification and the per-CPU table: which CPUs are online,
//! which one booted the system, their APIC ids, features and kernel stacks,
//! and each one's preemption count.
use vstd::prelude::*;

verus! {

/// Most CPUs the table holds.
pub const MAX_CPUS: usize = 256;

/// A CPU's index in the per-CPU table.
#[derive(Clone, Copy, PartialEq, Eq, Structural)]
pub struct CpuId(pub u8);

impl CpuId {
    pub fn new(id: u8) -> (c: Self)
        ensures
            c.0 == id,
    {
        CpuId(id)
    }

    pub fn as_u8(self) -> (r: u8)
        ensures
            r == self.0,
    {
        self.0
    }

    pub fn as_usize(self) -> (r: usize)
        ensures
            r == self.0 as usize,
    {
        self.0 as usize
    }
}

/// The processor features the kernel looks at.
#[derive(Clone, Copy)]
pub struct CpuFeatures {
    pub apic: bool,
    pub x2apic: bool,
    pub tsc: bool,
    pub tsc_deadline: bool,
    pub msr: bool,
    pub sse: bool,
    pub sse2: bool,
    pub sse3: bool,
    pub ssse3: bool,
    pub sse4_1: bool,
    pub sse4_2: bool,
    pub avx: bool,
    pub avx2: bool,
}

/// Whether bit `n` of `x` is set.
pub open spec fn bit(x: u32, n: u32) -> bool {
    x & (1u32 << n) != 0
}

impl CpuFeatures {
    /// The feature set with every feature absent.
    pub open spec fn none_spec() -> CpuFeatures {
        CpuFeatures {
            apic: false, x2apic: false, tsc: false, tsc_deadline: false, msr: false, sse: false, sse2: false,
            sse3: false, ssse3: false, sse4_1: false, sse4_2: false, avx: false, avx2: false,
        }
    }

    /// No feature present.
    pub fn none() -> (f: Self)
        ensures
            f == CpuFeatures::none_spec(),
            !f.apic && !f.x2apic && !f.tsc && !f.tsc_deadline && !f.msr && !f.sse && !f.sse2 && !f.sse3 && !f.ssse3
                && !f.sse4_1 && !f.sse4_2 && !f.avx && !f.avx2,
    {
        CpuFeatures {
            apic: false,
            x2apic: false,
            tsc: false,
            tsc_deadline: false,
            msr: false,
            sse: false,
            sse2: false,
            sse3: false,
            ssse3: false,
            sse4_1: false,
            sse4_2: false,
            avx: false,
            avx2: false,
        }
    }

    /// The features that CPUID reports: `ecx1` and `edx1` from leaf 1,
    /// `ebx7` from leaf 7 (subleaf 0).
    pub fn detect(ecx1: u32, edx1: u32, ebx7: u32) -> (f: Self)
        ensures
            f.apic == bit(edx1, 9),
            f.x2apic == bit(ecx1, 21),
            f.tsc == bit(edx1, 4),
            f.tsc_deadline == bit(ecx1, 24),
            f.msr == bit(edx1, 5),
            f.sse == bit(edx1, 25),
            f.sse2 == bit(edx1, 26),
            f.sse3 == bit(ecx1, 0),
            f.ssse3 == bit(ecx1, 9),
            f.sse4_1 == bit(ecx1, 19),
            f.sse4_2 == bit(ecx1, 20),
            f.avx == bit(ecx1, 28),
            f.avx2 == bit(ebx7, 5),
    {
        CpuFeatures {
            apic: (edx1 & (1u32 << 9u32)) != 0,
            x2apic: (ecx1 & (1u32 << 21u32)) != 0,
            tsc: (edx1 & (1u32 << 4u32)) != 0,
            tsc_deadline: (ecx1 & (1u32 << 24u32)) != 0,
            msr: (edx1 & (1u32 << 5u32)) != 0,
            sse: (edx1 & (1u32 << 25u32)) != 0,
            sse2: (edx1 & (1u32 << 26u32)) != 0,
            sse3: (ecx1 & (1u32 << 0u32)) != 0,
            ssse3: (ecx1 & (1u32 << 9u32)) != 0,
            sse4_1: (ecx1 & (1u32 << 19u32)) != 0,
            sse4_2: (ecx1 & (1u32 << 20u32)) != 0,
            avx: (ecx1 & (1u32 << 28u32)) != 0,
            avx2: (ebx7 & (1u32 << 5u32)) != 0,
        }
    }
}

/// What the kernel knows of one CPU.
#[derive(Clone, Copy)]
pub struct CpuInfo {
    pub id: CpuId,
    pub apic_id: u32,
    pub features: CpuFeatures,
    pub online: bool,
    pub bsp: bool,
}

impl CpuInfo {
    /// A CPU that is not online yet and has no known features.
    pub fn new(id: CpuId) -> (c: Self)
        ensures
            c.id == id,
            c.apic_id == 0,
            !c.online,
            !c.bsp,
            !c.features.apic && !c.features.x2apic && !c.features.tsc && !c.features.avx2,
            c.features == CpuFeatures::none_spec(),
    {
        CpuInfo { id, apic_id: 0, features: CpuFeatures::none(), online: false, bsp: false }
    }
}

/// One CPU's slot in the per-CPU table.
#[derive(Clone, Copy)]
pub struct PerCpuData {
    pub info: CpuInfo,
    pub kernel_stack: u64,
    pub user_stack: u64,
    pub tss_rsp0: u64,
    pub current_pid: u64,
    pub idle_ticks: u64,
    pub preempt_disable: u32,
}

impl PerCpuData {
    /// An empty slot: CPU 0's info with no features, not online, every
    /// field 0.
    pub fn new() -> (d: Self)
        ensures
            d.info.id.0 == 0,
            !d.info.online,
            !d.info.bsp,
            d.info.apic_id == 0,
            d.kernel_stack == 0 && d.user_stack == 0 && d.tss_rsp0 == 0,
            d.current_pid == 0 && d.idle_ticks == 0 && d.preempt_disable == 0,
            d.info.features == CpuFeatures::none_spec(),
    {
        PerCpuData {
            info: CpuInfo::new(CpuId::new(0)),
            kernel_stack: 0,
            user_stack: 0,
            tss_rsp0: 0,
            current_pid: 0,
            idle_ticks: 0,
            preempt_disable: 0,
        }
    }
}

/// The slot of a CPU brought online: its id, APIC id and features, with
/// the kernel stack (and the TSS stack) set when one was allocated.
pub open spec fn brought_online(old_slot: PerCpuData, new_slot: PerCpuData, id: u8, apic_id: u32, features: CpuFeatures, bsp: bool, stack_top: Option<u64>) -> bool {
    &&& new_slot.info.id.0 == id
    &&& new_slot.info.apic_id == apic_id
    &&& new_slot.info.features == features
    &&& new_slot.info.online
    &&& new_slot.info.bsp == bsp
    &&& new_slot.user_stack == old_slot.user_stack
    &&& new_slot.current_pid == old_slot.current_pid
    &&& new_slot.idle_ticks == old_slot.idle_ticks
    &&& new_slot.preempt_disable == old_slot.preempt_disable
    &&& match stack_top {
        Some(top) => new_slot.kernel_stack == top && new_slot.tss_rsp0 == top,
        None => new_slot.kernel_stack == old_slot.kernel_stack && new_slot.tss_rsp0 == old_slot.tss_rsp0,
    }
}

/// The per-CPU table and the counters kept beside it.
pub struct CpuTable {
    pub data: Vec<PerCpuData>,
    pub cpu_count: u8,
    pub bsp_id: u8,
    pub next_cpu_id: u8,
}

impl CpuTable {
    /// One slot per possible CPU.
    pub open spec fn wf(&self) -> bool {
        self.data@.len() == MAX_CPUS
    }

    /// The table before any CPU is brought up: empty slots, no CPU counted,
    /// application processors numbered from 1.
    pub fn new() -> (t: Self)
        ensures
            t.wf(),
            t.cpu_count == 0,
            t.bsp_id == 0,
            t.next_cpu_id == 1,
            forall|i: int| 0 <= i < MAX_CPUS ==> !(#[trigger] t.data@[i]).info.online && t.data@[i].preempt_disable == 0,
    {
        let mut data: Vec<PerCpuData> = Vec::new();
        let mut i: usize = 0;
        while i < MAX_CPUS
            invariant
                i <= MAX_CPUS,
                data@.len() == i,
                forall|k: int| 0 <= k < i ==> !(#[trigger] data@[k]).info.online && data@[k].preempt_disable == 0,
            decreases MAX_CPUS - i,
        {
            data.push(PerCpuData::new());
            i = i + 1;
        }
        CpuTable { data, cpu_count: 0, bsp_id: 0, next_cpu_id: 1 }
    }

    fn bring_online(&mut self, index: usize, apic_id: u32, features: CpuFeatures, bsp: bool, stack_top: Option<u64>)
        requires
            old(self).wf(),
            index < MAX_CPUS,
        ensures
            final(self).wf(),
            final(self).cpu_count == old(self).cpu_count,
            final(self).bsp_id == old(self).bsp_id,
            final(self).next_cpu_id == old(self).next_cpu_id,
            brought_online(old(self).data@[index as int], final(self).data@[index as int], index as u8, apic_id, features, bsp, stack_top),
            forall|i: int| 0 <= i < MAX_CPUS && i != index ==> final(self).data@[i] == old(self).data@[i],
    {
        let mut slot = self.data[index];
        slot.info.id = CpuId::new(index as u8);
        slot.info.apic_id = apic_id;
        slot.info.features = features;
        slot.info.online = true;
        slot.info.bsp = bsp;
        match stack_top {
            Some(top) => {
                slot.kernel_stack = top;
                slot.tss_rsp0 = top;
            },
            None => {},
        }
        self.data.set(index, slot);
    }

    /// Brings up the bootstrap processor as CPU 0: online, marked as the
    /// BSP, with its APIC id, features and kernel stack; one CPU counted.
    pub fn init_bsp(&mut self, apic_id: u32, features: CpuFeatures, stack_top: Option<u64>) -> (c: CpuId)
        requires
            old(self).wf(),
        ensures
            final(self).wf(),
            c.0 == 0,
            final(self).cpu_count == 1,
            final(self).bsp_id == 0,
            final(self).next_cpu_id == old(self).next_cpu_id,
            brought_online(old(self).data@[0], final(self).data@[0], 0, apic_id, features, true, stack_top),
            forall|i: int| 0 < i < MAX_CPUS ==> final(self).data@[i] == old(self).data@[i],
    {
        self.bring_online(0, apic_id, features, true, stack_top);
        self.cpu_count = 1;
        self.bsp_id = 0;
        CpuId::new(0)
    }

    /// Registers an application processor under the next CPU id (the
    /// counter of ids and the CPU count wrap around at 256).
    pub fn register_ap(&mut self, apic_id: u32, features: CpuFeatures, stack_top: Option<u64>) -> (r: Option<CpuId>)
        requires
            old(self).wf(),
        ensures
            final(self).wf(),
            r == Some(CpuId(old(self).next_cpu_id)),
            final(self).next_cpu_id == old(self).next_cpu_id.wrapping_add(1),
            final(self).cpu_count == old(self).cpu_count.wrapping_add(1),
            final(self).bsp_id == old(self).bsp_id,
            brought_online(
                old(self).data@[old(self).next_cpu_id as int],
                final(self).data@[old(self).next_cpu_id as int],
                old(self).next_cpu_id,
                apic_id,
                features,
                false,
                stack_top,
            ),
            forall|i: int| 0 <= i < MAX_CPUS && i != old(self).next_cpu_id ==> final(self).data@[i] == old(self).data@[i],
    {
        let id = CpuId::new(self.next_cpu_id);
        self.next_cpu_id = self.next_cpu_id.wrapping_add(1);
        if id.as_usize() >= MAX_CPUS {
            return None;
        }
        self.bring_online(id.as_usize(), apic_id, features, false, stack_top);
        self.cpu_count = self.cpu_count.wrapping_add(1);
        Some(id)
    }

    /// The number of CPUs counted online.
    pub fn get_cpu_count(&self) -> (n: u8)
        ensures
            n == self.cpu_count,
    {
        self.cpu_count
    }

    /// The bootstrap processor's CPU id.
    pub fn get_bsp_id(&self) -> (c: CpuId)
        ensures
            c.0 == self.bsp_id,
    {
        CpuId::new(self.bsp_id)
    }

    /// Whether `current` is the bootstrap processor.
    pub fn is_bsp(&self, current: CpuId) -> (b: bool)
        ensures
            b == (current.0 == self.bsp_id),
    {
        current.0 == self.bsp_id
    }

    /// The slot of `cpu`.
    pub fn get_cpu_data(&self, cpu: CpuId) -> (r: Option<PerCpuData>)
        requires
            self.wf(),
        ensures
            r == Some(self.data@[cpu.0 as int]),
    {
        if cpu.as_usize() < MAX_CPUS {
            Some(self.data[cpu.as_usize()])
        } else {
            None
        }
    }

    /// Raises `cpu`'s preemption count by one.
    pub fn preempt_disable(&mut self, cpu: CpuId)
        requires
            old(self).wf(),
            old(self).data@[cpu.0 as int].preempt_disable < u32::MAX,
        ensures
            final(self).wf(),
            final(self).data@ == old(self).data@.update(
                cpu.0 as int,
                with_preempt(old(self).data@[cpu.0 as int], old(self).data@[cpu.0 as int].preempt_disable + 1),
            ),
            final(self).cpu_count == old(self).cpu_count,
            final(self).bsp_id == old(self).bsp_id,
            final(self).next_cpu_id == old(self).next_cpu_id,
    {
        let i = cpu.as_usize();
        let mut slot = self.data[i];
        slot.preempt_disable = slot.preempt_disable + 1;
        self.data.set(i, slot);
    }

    /// Lowers `cpu`'s preemption count by one, when it is above 0.
    pub fn preempt_enable(&mut self, cpu: CpuId)
        requires
            old(self).wf(),
        ensures
            final(self).wf(),
            old(self).data@[cpu.0 as int].preempt_disable > 0 ==> final(self).data@ == old(self).data@.update(
                cpu.0 as int,
                with_preempt(old(self).data@[cpu.0 as int], old(self).data@[cpu.0 as int].preempt_disable - 1),
            ),
            old(self).data@[cpu.0 as int].preempt_disable == 0 ==> final(self).data@ == old(self).data@,
            final(self).cpu_count == old(self).cpu_count,
            final(self).bsp_id == old(self).bsp_id,
            final(self).next_cpu_id == old(self).next_cpu_id,
    {
        let i = cpu.as_usize();
        let mut slot = self.data[i];
        if slot.preempt_disable > 0 {
            slot.preempt_disable = slot.preempt_disable - 1;
            self.data.set(i, slot);
        }
    }

    /// Whether preemption is off on `cpu`.
    pub fn preempt_disabled(&self, cpu: CpuId) -> (b: bool)
        requires
            self.wf(),
        ensures
            b == (self.data@[cpu.0 as int].preempt_disable > 0),
    {
        self.data[cpu.as_usize()].preempt_disable > 0
    }

    /// An iteration over the online CPUs among the first `cpu_count` ids.
    pub fn online_cpus(&self) -> (it: CpuIter)
        ensures
            it.current == 0,
            it.max == self.cpu_count,
    {
        CpuIter { current: 0, max: self.cpu_count }
    }

    /// The online CPUs among the first `cpu_count` ids, in order.
    pub fn online_cpu_list(&self) -> (v: Vec<CpuId>)
        requires
            self.wf(),
        ensures
            v@ == online_from(self.data@, 0, self.cpu_count as int),
    {
        let mut it = self.online_cpus();
        let mut v: Vec<CpuId> = Vec::new();
        loop
            invariant
                self.wf(),
                it.current <= it.max,
                it.max == self.cpu_count,
                v@ + online_from(self.data@, it.current as int, it.max as int) == online_from(self.data@, 0, self.cpu_count as int),
            decreases it.max - it.current,
        {
            let ghost before = it.current;
            match it.next(self) {
                Some(c) => {
                    let ghost vb = v@;
                    v.push(c);
                    assert(vb.push(c) + online_from(self.data@, it.current as int, it.max as int) =~= vb + online_from(self.data@, before as int, it.max as int));
                },
                None => {
                    assert(v@ + seq![] =~= v@);
                    return v;
                },
            }
        }
    }
}

/// The slot with its preemption count replaced.
pub open spec fn with_preempt(d: PerCpuData, n: int) -> PerCpuData {
    PerCpuData { preempt_disable: n as u32, ..d }
}

/// The ids from `i` below `max` whose slots are online.
pub open spec fn online_from(data: Seq<PerCpuData>, i: int, max: int) -> Seq<CpuId>
    decreases max - i,
{
    if i >= max || i < 0 {
        seq![]
    } else if data[i].info.online {
        seq![CpuId(i as u8)] + online_from(data, i + 1, max)
    } else {
        online_from(data, i + 1, max)
    }
}

/// A walk over the CPU ids below `max`, stopping at the online ones.
pub struct CpuIter {
    pub current: u8,
    pub max: u8,
}

impl CpuIter {
    /// The next online CPU id at or after `current`, and the walk moved past
    /// it; `None` at the end.
    pub fn next(&mut self, table: &CpuTable) -> (r: Option<CpuId>)
        requires
            table.wf(),
            old(self).current <= old(self).max,
        ensures
            final(self).max == old(self).max,
            old(self).current <= final(self).current <= final(self).max,
            match r {
                Some(c) => online_from(table.data@, old(self).current as int, old(self).max as int) == seq![c]
                    + online_from(table.data@, final(self).current as int, final(self).max as int)
                    && final(self).current > old(self).current,
                None => online_from(table.data@, old(self).current as int, old(self).max as int) == Seq::<CpuId>::empty()
                    && final(self).current == final(self).max,
            },
    {
        while self.current < self.max
            invariant
                table.wf(),
                self.max == old(self).max,
                old(self).current <= self.current <= self.max,
                online_from(table.data@, old(self).current as int, old(self).max as int) == online_from(
                    table.data@,
                    self.current as int,
                    self.max as int,
                ),
            decreases self.max - self.current,
        {
            let id = CpuId::new(self.current);
            self.current = self.current + 1;
            if table.data[id.as_usize()].info.online {
                return Some(id);
            }
        }
        None
    }
}

/// Raising and then lowering a CPU's preemption count gives back the slot
/// it had.
pub proof fn lemma_preempt_round_trip(d: PerCpuData)
    requires
        d.preempt_disable < u32::MAX,
    ensures
        with_preempt(with_preempt(d, d.preempt_disable + 1), with_preempt(d, d.preempt_disable + 1).preempt_disable - 1) == d,
{
}

} // verus!
