//! ELF64 parsing: the file header, program headers and loadable segments
//! of an x86-64 executable.
use vstd::prelude::*;
use crate::bytes::{get16, get32, get64, read16, read32, read64};

verus! {

pub const ELFCLASS64: u8 = 2;
pub const ELFDATA2LSB: u8 = 1;
pub const ET_EXEC: u16 = 2;
pub const EM_X86_64: u16 = 62;
pub const PT_NULL: u32 = 0;
pub const PT_LOAD: u32 = 1;
pub const PT_DYNAMIC: u32 = 2;
pub const PT_INTERP: u32 = 3;
pub const PF_X: u32 = 0x1;
pub const PF_W: u32 = 0x2;
pub const PF_R: u32 = 0x4;
/// Size of the ELF64 file header.
pub const EHDR_SIZE: usize = 64;
/// Size of an ELF64 program header.
pub const PHDR_SIZE: usize = 56;

/// The ELF64 file header.
pub struct Elf64Header {
    pub e_ident: Vec<u8>,
    pub e_type: u16,
    pub e_machine: u16,
    pub e_version: u32,
    pub e_entry: u64,
    pub e_phoff: u64,
    pub e_shoff: u64,
    pub e_flags: u32,
    pub e_ehsize: u16,
    pub e_phentsize: u16,
    pub e_phnum: u16,
    pub e_shentsize: u16,
    pub e_shnum: u16,
    pub e_shstrndx: u16,
}

/// The header stored at the start of `b` (little-endian, packed).
pub open spec fn header_of(b: Seq<u8>, h: Elf64Header) -> bool {
    &&& h.e_ident@ == b.subrange(0, 16)
    &&& h.e_type == get16(b, 16) && h.e_machine == get16(b, 18) && h.e_version == get32(b, 20)
    &&& h.e_entry == get64(b, 24) && h.e_phoff == get64(b, 32) && h.e_shoff == get64(b, 40)
    &&& h.e_flags == get32(b, 48) && h.e_ehsize == get16(b, 52) && h.e_phentsize == get16(b, 54)
    &&& h.e_phnum == get16(b, 56) && h.e_shentsize == get16(b, 58) && h.e_shnum == get16(b, 60)
    &&& h.e_shstrndx == get16(b, 62)
}

/// Why a header is refused, checked in this order: magic, class,
/// byte order, machine.
pub open spec fn header_error(h: Elf64Header) -> Option<Seq<char>> {
    if h.e_ident@.subrange(0, 4) != seq![0x7fu8, 0x45u8, 0x4cu8, 0x46u8] {
        Some("Invalid ELF magic"@)
    } else if h.e_ident@[4] != ELFCLASS64 {
        Some("Not a 64-bit ELF"@)
    } else if h.e_ident@[5] != ELFDATA2LSB {
        Some("Not little-endian"@)
    } else if h.e_machine != EM_X86_64 {
        Some("Not x86-64 architecture"@)
    } else {
        None
    }
}

/// A canonical x86-64 virtual address: bits 47..64 all equal.
pub open spec fn canonical(a: u64) -> bool {
    (a >> 47u64) == 0 || (a >> 47u64) == 0x1ffff
}

impl Elf64Header {
    /// The header stored at the start of `data`.
    pub fn read(data: &[u8]) -> (h: Self)
        requires
            data@.len() >= EHDR_SIZE,
        ensures
            header_of(data@, h),
    {
        let mut ident: Vec<u8> = Vec::new();
        let mut i: usize = 0;
        while i < 16
            invariant
                data@.len() >= EHDR_SIZE,
                i <= 16,
                ident@ == data@.subrange(0, i as int),
            decreases 16 - i,
        {
            ident.push(data[i]);
            i = i + 1;
            assert(ident@ =~= data@.subrange(0, i as int));
        }
        Elf64Header {
            e_ident: ident,
            e_type: read16(data, 16),
            e_machine: read16(data, 18),
            e_version: read32(data, 20),
            e_entry: read64(data, 24),
            e_phoff: read64(data, 32),
            e_shoff: read64(data, 40),
            e_flags: read32(data, 48),
            e_ehsize: read16(data, 52),
            e_phentsize: read16(data, 54),
            e_phnum: read16(data, 56),
            e_shentsize: read16(data, 58),
            e_shnum: read16(data, 60),
            e_shstrndx: read16(data, 62),
        }
    }

    /// Accepts a little-endian x86-64 ELF64 file; the error says the first
    /// check that failed.
    pub fn validate(&self) -> (r: Result<(), &'static str>)
        requires
            self.e_ident@.len() == 16,
        ensures
            header_error(*self) is None <==> r is Ok,
            r matches Err(e) ==> header_error(*self) == Some(e@),
    {
        let magic_ok = self.e_ident[0] == 0x7f && self.e_ident[1] == 0x45 && self.e_ident[2] == 0x4c
            && self.e_ident[3] == 0x46;
        proof {
            let m = self.e_ident@.subrange(0, 4);
            assert(magic_ok == (m =~= seq![0x7fu8, 0x45u8, 0x4cu8, 0x46u8]));
        }
        if !magic_ok {
            return Err("Invalid ELF magic");
        }
        if self.e_ident[4] != ELFCLASS64 {
            return Err("Not a 64-bit ELF");
        }
        if self.e_ident[5] != ELFDATA2LSB {
            return Err("Not little-endian");
        }
        if self.e_machine != EM_X86_64 {
            return Err("Not x86-64 architecture");
        }
        Ok(())
    }

    /// The entry point address, which must be canonical.
    pub fn entry_point(&self) -> (a: u64)
        requires
            canonical(self.e_entry),
        ensures
            a == self.e_entry,
    {
        self.e_entry
    }
}

/// An ELF64 program header.
#[derive(Clone, Copy, PartialEq, Eq, Structural)]
pub struct Elf64ProgramHeader {
    pub p_type: u32,
    pub p_flags: u32,
    pub p_offset: u64,
    pub p_vaddr: u64,
    pub p_paddr: u64,
    pub p_filesz: u64,
    pub p_memsz: u64,
    pub p_align: u64,
}

/// The program header stored at offset `o` of `b`.
pub open spec fn phdr_at(b: Seq<u8>, o: int) -> Elf64ProgramHeader {
    Elf64ProgramHeader {
        p_type: get32(b, o),
        p_flags: get32(b, o + 4),
        p_offset: get64(b, o + 8),
        p_vaddr: get64(b, o + 16),
        p_paddr: get64(b, o + 24),
        p_filesz: get64(b, o + 32),
        p_memsz: get64(b, o + 40),
        p_align: get64(b, o + 48),
    }
}

impl Elf64ProgramHeader {
    /// The program header stored at offset `at`.
    pub fn read(data: &[u8], at: usize) -> (ph: Self)
        requires
            at + PHDR_SIZE <= data@.len(),
        ensures
            ph == phdr_at(data@, at as int),
    {
        let len = data.len();
        assert(at + PHDR_SIZE <= len);
        Elf64ProgramHeader {
            p_type: read32(data, at),
            p_flags: read32(data, at + 4),
            p_offset: read64(data, at + 8),
            p_vaddr: read64(data, at + 16),
            p_paddr: read64(data, at + 24),
            p_filesz: read64(data, at + 32),
            p_memsz: read64(data, at + 40),
            p_align: read64(data, at + 48),
        }
    }

    pub fn is_load(&self) -> (r: bool)
        ensures
            r == (self.p_type == PT_LOAD),
    {
        self.p_type == PT_LOAD
    }

    pub fn is_executable(&self) -> (r: bool)
        ensures
            r == (self.p_flags & PF_X != 0),
    {
        (self.p_flags & PF_X) != 0
    }

    pub fn is_writable(&self) -> (r: bool)
        ensures
            r == (self.p_flags & PF_W != 0),
    {
        (self.p_flags & PF_W) != 0
    }

    pub fn is_readable(&self) -> (r: bool)
        ensures
            r == (self.p_flags & PF_R != 0),
    {
        (self.p_flags & PF_R) != 0
    }
}

/// A parsed ELF file: its bytes and its validated header.
pub struct Elf<'a> {
    pub data: &'a [u8],
    pub header: Elf64Header,
}

/// Offset of program header `i`.
pub open spec fn phdr_offset(h: Elf64Header, i: int) -> int {
    h.e_phoff + i * h.e_phentsize
}

/// The program headers of the file, in order.
pub open spec fn phdrs(b: Seq<u8>, h: Elf64Header) -> Seq<Elf64ProgramHeader> {
    Seq::new(h.e_phnum as nat, |i: int| phdr_at(b, phdr_offset(h, i)))
}

impl<'a> Elf<'a> {
    /// Every program header lies inside the file.
    pub open spec fn headers_in_bounds(&self) -> bool {
        forall|i: int| 0 <= i < self.header.e_phnum ==> #[trigger] phdr_offset(self.header, i) + PHDR_SIZE <= self.data@.len()
    }

    /// Reads and validates the header of an ELF file.
    pub fn parse(data: &'a [u8]) -> (r: Result<Elf<'a>, &'static str>)
        ensures
            data@.len() < EHDR_SIZE ==> (r matches Err(e) && e@ == "ELF data too small for header"@),
            data@.len() >= EHDR_SIZE ==> exists|h: Elf64Header| #[trigger] header_of(data@, h) && {
                &&& header_error(h) is None <==> r is Ok
                &&& r matches Err(e) ==> header_error(h) == Some(e@)
                &&& r matches Ok(elf) ==> elf.data@ == data@ && header_of(data@, elf.header)
            },
    {
        if data.len() < EHDR_SIZE {
            return Err("ELF data too small for header");
        }
        let header = Elf64Header::read(data);
        assert(header_of(data@, header));
        match header.validate() {
            Err(e) => Err(e),
            Ok(()) => Ok(Elf { data, header }),
        }
    }

    /// Whether every program header lies inside the file.
    pub fn check_headers_in_bounds(&self) -> (r: bool)
        ensures
            r == self.headers_in_bounds(),
    {
        let len = self.data.len() as u128;
        let mut i: u16 = 0;
        while i < self.header.e_phnum
            invariant
                len == self.data@.len(),
                i <= self.header.e_phnum,
                forall|k: int| 0 <= k < i ==> #[trigger] phdr_offset(self.header, k) + PHDR_SIZE <= self.data@.len(),
            decreases self.header.e_phnum - i,
        {
            assert((i as u128) * (self.header.e_phentsize as u128) <= 65535 * 65535) by (nonlinear_arith)
                requires i <= 65535, self.header.e_phentsize <= 65535;
            let off = self.header.e_phoff as u128 + (i as u128) * (self.header.e_phentsize as u128);
            if off + PHDR_SIZE as u128 > len {
                assert(!(phdr_offset(self.header, i as int) + PHDR_SIZE <= self.data@.len()));
                return false;
            }
            i = i + 1;
        }
        true
    }

    /// The program headers, in order.
    pub fn program_headers(&self) -> (r: Vec<Elf64ProgramHeader>)
        requires
            self.headers_in_bounds(),
        ensures
            r@ == phdrs(self.data@, self.header),
    {
        let mut r: Vec<Elf64ProgramHeader> = Vec::new();
        let n = self.header.e_phnum;
        let len = self.data.len();
        let mut i: u16 = 0;
        while i < n
            invariant
                self.headers_in_bounds(),
                len == self.data@.len(),
                n == self.header.e_phnum,
                i <= n,
                r@ == phdrs(self.data@, self.header).subrange(0, i as int),
            decreases n - i,
        {
            assert(phdr_offset(self.header, i as int) + PHDR_SIZE <= self.data@.len());
            let off = (self.header.e_phoff as usize) + (i as usize) * (self.header.e_phentsize as usize);
            r.push(Elf64ProgramHeader::read(self.data, off));
            i = i + 1;
            assert(r@ =~= phdrs(self.data@, self.header).subrange(0, i as int));
        }
        assert(phdrs(self.data@, self.header).subrange(0, n as int) =~= phdrs(self.data@, self.header));
        r
    }

    /// The loadable program headers, in order.
    pub fn load_segments(&self) -> (r: Vec<Elf64ProgramHeader>)
        requires
            self.headers_in_bounds(),
        ensures
            r@ == phdrs(self.data@, self.header).filter(|ph: Elf64ProgramHeader| ph.p_type == PT_LOAD),
    {
        let all = self.program_headers();
        let ghost f = |ph: Elf64ProgramHeader| ph.p_type == PT_LOAD;
        let mut r: Vec<Elf64ProgramHeader> = Vec::new();
        let mut i: usize = 0;
        while i < all.len()
            invariant
                i <= all@.len(),
                r@ == all@.subrange(0, i as int).filter(f),
                f == (|ph: Elf64ProgramHeader| ph.p_type == PT_LOAD),
            decreases all@.len() - i,
        {
            let ph = all[i];
            proof {
                let s = all@.subrange(0, i + 1);
                assert(s.drop_last() =~= all@.subrange(0, i as int));
                assert(s.last() == ph);
                reveal(Seq::filter);
            }
            if ph.is_load() {
                r.push(ph);
            }
            i = i + 1;
        }
        assert(all@.subrange(0, all@.len() as int) =~= all@);
        r
    }

    /// Whether the file can be loaded (see `loadable`).
    pub fn is_loadable(&self) -> (r: bool)
        ensures
            r == loadable(self.data@, self.header),
    {
        if !self.check_headers_in_bounds() {
            return false;
        }
        let e = self.header.e_entry;
        if !((e >> 47) == 0 || (e >> 47) == 0x1ffff) {
            return false;
        }
        let all = self.program_headers();
        let len = self.data.len() as u128;
        let mut i: usize = 0;
        while i < all.len()
            invariant
                len == self.data@.len(),
                all@ == phdrs(self.data@, self.header),
                i <= all@.len(),
                forall|k: int| 0 <= k < i && (#[trigger] phdrs(self.data@, self.header)[k]).p_type == PT_LOAD ==> {
                    &&& canonical(phdrs(self.data@, self.header)[k].p_vaddr)
                    &&& phdrs(self.data@, self.header)[k].p_offset + phdrs(self.data@, self.header)[k].p_filesz <= self.data@.len()
                },
            decreases all@.len() - i,
        {
            let ph = all[i];
            if ph.p_type == PT_LOAD {
                let v = ph.p_vaddr;
                if !((v >> 47) == 0 || (v >> 47) == 0x1ffff) {
                    return false;
                }
                if ph.p_offset as u128 + ph.p_filesz as u128 > len {
                    return false;
                }
            }
            i = i + 1;
        }
        true
    }

    /// The bytes of a segment in the file, which must lie inside it.
    pub fn segment_data(&self, ph: &Elf64ProgramHeader) -> (d: &'a [u8])
        requires
            ph.p_offset + ph.p_filesz <= self.data@.len(),
        ensures
            d@ == self.data@.subrange(ph.p_offset as int, ph.p_offset + ph.p_filesz),
    {
        let len = self.data.len();
        let offset = ph.p_offset as usize;
        let size = ph.p_filesz as usize;
        assert(offset + size <= len);
        vstd::slice::slice_subrange(self.data, offset, offset + size)
    }
}

/// What loading an ELF file does: its loadable segments in order, each to
/// be mapped (writable, executable by its flags), filled from the file and
/// zero-filled past its file size, and the entry point to jump to.
pub struct LoadPlan {
    pub entry: u64,
    pub segments: Vec<Elf64ProgramHeader>,
}

/// The file can be loaded: its program headers and loadable segments lie
/// inside it, and the addresses used are canonical.
pub open spec fn loadable(data: Seq<u8>, h: Elf64Header) -> bool {
    &&& forall|i: int| 0 <= i < h.e_phnum ==> #[trigger] phdr_offset(h, i) + PHDR_SIZE <= data.len()
    &&& canonical(h.e_entry)
    &&& forall|i: int| 0 <= i < h.e_phnum && (#[trigger] phdrs(data, h)[i]).p_type == PT_LOAD ==> {
        &&& canonical(phdrs(data, h)[i].p_vaddr)
        &&& phdrs(data, h)[i].p_offset + phdrs(data, h)[i].p_filesz <= data.len()
    }
}

/// Parses an ELF file and lists what loading it does.
pub fn load_elf(elf_data: &[u8]) -> (r: Result<LoadPlan, &'static str>)
    requires
        elf_data@.len() >= EHDR_SIZE ==> forall|h: Elf64Header| #[trigger] header_of(elf_data@, h) && header_error(h) is None
            ==> loadable(elf_data@, h),
    ensures
        elf_data@.len() < EHDR_SIZE ==> (r matches Err(e) && e@ == "ELF data too small for header"@),
        elf_data@.len() >= EHDR_SIZE ==> exists|h: Elf64Header| #[trigger] header_of(elf_data@, h) && {
            &&& header_error(h) is None <==> r is Ok
            &&& r matches Err(e) ==> header_error(h) == Some(e@)
            &&& r matches Ok(plan) ==> plan.entry == h.e_entry
                && plan.segments@ == phdrs(elf_data@, h).filter(|ph: Elf64ProgramHeader| ph.p_type == PT_LOAD)
        },
{
    let elf = match Elf::parse(elf_data) {
        Ok(e) => e,
        Err(e) => return Err(e),
    };
    assert(header_of(elf_data@, elf.header) && header_error(elf.header) is None);
    let segments = elf.load_segments();
    Ok(LoadPlan { entry: elf.header.entry_point(), segments })
}

} // verus!
