//! The virtual file system: mount table, path resolution with a bounded
//! least-recently-used cache, and open-file handles.
use vstd::prelude::*;
use crate::text::{chars_eq, first_index, lemma_first_index, lemma_first_index_props, string_from_chars};
use crate::vfs_path::{normalize_chars, normalized};

verus! {

/// Kind of a file-system object.
#[derive(Clone, Copy, PartialEq, Eq, Structural)]
pub enum FileType {
    Regular,
    Directory,
    SymLink,
    Device,
    Socket,
    Pipe,
}

/// Read, write and execute permission of the owner.
#[derive(Clone, Copy, PartialEq, Eq, Structural)]
pub struct Permissions {
    pub read: bool,
    pub write: bool,
    pub execute: bool,
}

impl Permissions {
    pub fn new(read: bool, write: bool, execute: bool) -> (p: Self)
        ensures
            p == (Permissions { read, write, execute }),
    {
        Permissions { read, write, execute }
    }

    /// Owner bits of a Unix mode (0o400, 0o200, 0o100).
    pub fn from_mode(mode: u16) -> (p: Self)
        ensures
            p.read == (mode & 0o400u16 != 0),
            p.write == (mode & 0o200u16 != 0),
            p.execute == (mode & 0o100u16 != 0),
    {
        Permissions {
            read: (mode & 0o400) != 0,
            write: (mode & 0o200) != 0,
            execute: (mode & 0o100) != 0,
        }
    }

    /// The Unix mode holding exactly these owner bits.
    pub fn to_mode(&self) -> (m: u16)
        ensures
            m == (if self.read { 0o400u16 } else { 0 }) + (if self.write { 0o200u16 } else { 0 })
                + (if self.execute { 0o100u16 } else { 0 }),
    {
        let mut mode: u16 = 0;
        assert(0u16 | 0o400u16 == 0o400u16) by (bit_vector);
        if self.read {
            mode = mode | 0o400;
        }
        if self.write {
            assert(mode == 0 || mode == 0o400);
            assert(0u16 | 0o200u16 == 0o200u16) by (bit_vector);
            assert(0o400u16 | 0o200u16 == 0o600u16) by (bit_vector);
            mode = mode | 0o200;
        }
        if self.execute {
            assert(0u16 | 0o100u16 == 0o100u16) by (bit_vector);
            assert(0o400u16 | 0o100u16 == 0o500u16) by (bit_vector);
            assert(0o200u16 | 0o100u16 == 0o300u16) by (bit_vector);
            assert(0o600u16 | 0o100u16 == 0o700u16) by (bit_vector);
            mode = mode | 0o100;
        }
        assert(0u16 | 0o400u16 == 0o400u16) by (bit_vector);
        mode
    }

    /// Read and write, no execute.
    pub fn default_permissions() -> (p: Self)
        ensures
            p == (Permissions { read: true, write: true, execute: false }),
    {
        Permissions::new(true, true, false)
    }
}

/// Round trip: reading the owner bits of the mode that `to_mode` builds gives
/// back the same permissions.
pub proof fn lemma_mode_round_trip(p: Permissions)
    ensures
        ({
            let m: u16 = ((if p.read { 0o400u16 } else { 0 }) + (if p.write { 0o200u16 } else { 0 })
                + (if p.execute { 0o100u16 } else { 0 })) as u16;
            &&& (m & 0o400u16 != 0) == p.read
            &&& (m & 0o200u16 != 0) == p.write
            &&& (m & 0o100u16 != 0) == p.execute
        }),
{
    let r = p.read;
    let w = p.write;
    let x = p.execute;
    assert(forall|m: u16| (m == 0 || m == 0o100 || m == 0o200 || m == 0o300 || m == 0o400 || m == 0o500 || m == 0o600 || m == 0o700) ==>
        ((m & 0o400u16 != 0) == (m >= 0o400) && (m & 0o200u16 != 0) == (m == 0o200 || m == 0o300 || m == 0o600 || m == 0o700)
        && (m & 0o100u16 != 0) == (m == 0o100 || m == 0o300 || m == 0o500 || m == 0o700))) by (bit_vector);
}

impl Default for Permissions {
    fn default() -> (p: Self)
        ensures
            p == (Permissions { read: true, write: true, execute: false }),
    {
        Permissions::default_permissions()
    }
}

/// Metadata of a file.
#[derive(Clone, Copy, PartialEq, Eq, Structural)]
pub struct FileAttr {
    pub file_type: FileType,
    pub size: u64,
    pub permissions: Permissions,
    pub created: u64,
    pub modified: u64,
    pub accessed: u64,
    pub inode: u64,
}

impl Default for FileAttr {
    fn default() -> (a: Self)
        ensures
            a == (FileAttr {
                file_type: FileType::Regular,
                size: 0,
                permissions: Permissions { read: true, write: true, execute: false },
                created: 0,
                modified: 0,
                accessed: 0,
                inode: 0,
            }),
    {
        FileAttr {
            file_type: FileType::Regular,
            size: 0,
            permissions: Permissions::default_permissions(),
            created: 0,
            modified: 0,
            accessed: 0,
            inode: 0,
        }
    }
}

/// One entry of a directory listing.
pub struct DirEntry {
    pub name: String,
    pub file_type: FileType,
    pub inode: u64,
}

/// How a file is opened.
#[derive(Clone, Copy, PartialEq, Eq, Structural)]
pub struct OpenFlags {
    pub read: bool,
    pub write: bool,
    pub create: bool,
    pub truncate: bool,
    pub append: bool,
}

impl OpenFlags {
    pub fn read_only() -> (f: Self)
        ensures
            f == (OpenFlags { read: true, write: false, create: false, truncate: false, append: false }),
    {
        OpenFlags { read: true, write: false, create: false, truncate: false, append: false }
    }

    pub fn write_only() -> (f: Self)
        ensures
            f == (OpenFlags { read: false, write: true, create: true, truncate: true, append: false }),
    {
        OpenFlags { read: false, write: true, create: true, truncate: true, append: false }
    }

    pub fn read_write() -> (f: Self)
        ensures
            f == (OpenFlags { read: true, write: true, create: true, truncate: false, append: false }),
    {
        OpenFlags { read: true, write: true, create: true, truncate: false, append: false }
    }

    pub fn append() -> (f: Self)
        ensures
            f == (OpenFlags { read: false, write: true, create: true, truncate: false, append: true }),
    {
        OpenFlags { read: false, write: true, create: true, truncate: false, append: true }
    }
}

impl Default for OpenFlags {
    fn default() -> (f: Self)
        ensures
            f == (OpenFlags { read: true, write: false, create: false, truncate: false, append: false }),
    {
        OpenFlags::read_only()
    }
}

/// Seek origin.
#[derive(Clone, Copy)]
pub enum SeekFrom {
    Start(u64),
    End(i64),
    Current(i64),
}

/// Errors of file-system operations.
#[derive(Clone, Copy, PartialEq, Eq, Structural)]
pub enum VfsError {
    NotFound,
    AlreadyExists,
    NotDirectory,
    IsDirectory,
    PermissionDenied,
    InvalidPath,
    NoSpace,
    IoError,
    NotMounted,
    Busy,
    InvalidOperation,
    TooLarge,
    NotEmpty,
}

impl VfsError {
    /// Human-readable description.
    pub fn as_str(&self) -> (s: &'static str)
        ensures
            s@ == match *self {
                VfsError::NotFound => "File not found"@,
                VfsError::AlreadyExists => "File already exists"@,
                VfsError::NotDirectory => "Not a directory"@,
                VfsError::IsDirectory => "Is a directory"@,
                VfsError::PermissionDenied => "Permission denied"@,
                VfsError::InvalidPath => "Invalid path"@,
                VfsError::NoSpace => "No space left on device"@,
                VfsError::IoError => "I/O error"@,
                VfsError::NotMounted => "Filesystem not mounted"@,
                VfsError::Busy => "Resource busy"@,
                VfsError::InvalidOperation => "Invalid operation"@,
                VfsError::TooLarge => "File too large"@,
                VfsError::NotEmpty => "Directory not empty"@,
            },
    {
        match self {
            VfsError::NotFound => "File not found",
            VfsError::AlreadyExists => "File already exists",
            VfsError::NotDirectory => "Not a directory",
            VfsError::IsDirectory => "Is a directory",
            VfsError::PermissionDenied => "Permission denied",
            VfsError::InvalidPath => "Invalid path",
            VfsError::NoSpace => "No space left on device",
            VfsError::IoError => "I/O error",
            VfsError::NotMounted => "Filesystem not mounted",
            VfsError::Busy => "Resource busy",
            VfsError::InvalidOperation => "Invalid operation",
            VfsError::TooLarge => "File too large",
            VfsError::NotEmpty => "Directory not empty",
        }
    }
}

pub type VfsResult<T> = Result<T, VfsError>;

/// An open file: inode, current position, flags and owning file system.
pub struct FileHandle {
    pub inode: u64,
    pub position: u64,
    pub flags: OpenFlags,
    pub fs_id: usize,
}

impl FileHandle {
    /// The current position.
    pub closed spec fn pos(&self) -> u64 {
        self.position
    }

    pub fn new(inode: u64, flags: OpenFlags, fs_id: usize) -> (h: Self)
        ensures
            h.inode == inode,
            h.flags == flags,
            h.fs_id == fs_id,
            h.pos() == 0,
    {
        FileHandle { inode, position: 0, flags, fs_id }
    }

    pub fn position(&self) -> (p: u64)
        ensures
            p == self.pos(),
    {
        self.position
    }

    pub fn set_position(&mut self, pos: u64)
        ensures
            final(self).pos() == pos,
            final(self).inode == old(self).inode,
            final(self).flags == old(self).flags,
            final(self).fs_id == old(self).fs_id,
    {
        self.position = pos;
    }

    /// Moves the position forward, wrapping at 2^64.
    pub fn advance(&mut self, bytes: u64)
        ensures
            final(self).pos() == (old(self).pos() + bytes) % 0x1_0000_0000_0000_0000,
            final(self).inode == old(self).inode,
            final(self).flags == old(self).flags,
            final(self).fs_id == old(self).fs_id,
    {
        self.position = self.position.wrapping_add(bytes);
    }
}

/// File-system statistics.
#[derive(Clone, Copy)]
pub struct FsStats {
    pub total_blocks: u64,
    pub free_blocks: u64,
    pub block_size: u32,
    pub total_inodes: u64,
    pub free_inodes: u64,
    pub fs_type: u32,
}

/// A mountable file system. Each operation's result is described by a spec
/// function of the implementation's state and the arguments.
pub trait Filesystem: Sized {
    spec fn name_spec(&self) -> Seq<char>;
    spec fn mount_spec(&self) -> VfsResult<()>;
    spec fn mounted_spec(&self) -> Self;
    spec fn unmount_spec(&self) -> VfsResult<()>;
    spec fn sync_spec(&self) -> VfsResult<()>;
    spec fn getattr_spec(&self, path: Seq<char>) -> VfsResult<FileAttr>;
    spec fn inode_attr_spec(&self, inode: u64) -> VfsResult<FileAttr>;
    spec fn readdir_spec(&self, path: Seq<char>) -> VfsResult<Vec<DirEntry>>;
    spec fn create_spec(&self, path: Seq<char>, permissions: Permissions) -> VfsResult<u64>;
    spec fn mkdir_spec(&self, path: Seq<char>, permissions: Permissions) -> VfsResult<()>;
    spec fn unlink_spec(&self, path: Seq<char>) -> VfsResult<()>;
    spec fn read_spec(&self, inode: u64, offset: u64, len: nat) -> VfsResult<usize>;
    spec fn read_fill_spec(&self, inode: u64, offset: u64, buffer: Seq<u8>) -> Seq<u8>;
    spec fn write_spec(&self, inode: u64, offset: u64, data: Seq<u8>) -> VfsResult<usize>;

    /// File-system name (such as "psychicfs").
    fn name(&self) -> (r: &'static str)
        ensures
            r@ == self.name_spec();

    fn is_mounted(&self) -> bool;

    /// Mounts the file system: the result and the state after it are
    /// functions of the state before; the name stays.
    fn mount(&mut self) -> (r: VfsResult<()>)
        ensures
            r == old(self).mount_spec(),
            *final(self) == old(self).mounted_spec(),
            final(self).name_spec() == old(self).name_spec();

    fn unmount(&mut self) -> (r: VfsResult<()>)
        ensures
            r == old(self).unmount_spec();

    fn sync(&mut self) -> (r: VfsResult<()>)
        ensures
            r == old(self).sync_spec();

    fn getattr(&self, path: &str) -> (r: VfsResult<FileAttr>)
        ensures
            r == self.getattr_spec(path@);

    /// Attributes of the file with inode number `inode` (an append
    /// writes at its size).
    fn inode_attr(&self, inode: u64) -> (r: VfsResult<FileAttr>)
        ensures
            r == self.inode_attr_spec(inode);

    fn readdir(&self, path: &str) -> (r: VfsResult<Vec<DirEntry>>)
        ensures
            r == self.readdir_spec(path@);

    fn create(&mut self, path: &str, permissions: Permissions) -> (r: VfsResult<u64>)
        ensures
            r == old(self).create_spec(path@, permissions);

    fn mkdir(&mut self, path: &str, permissions: Permissions) -> (r: VfsResult<()>)
        ensures
            r == old(self).mkdir_spec(path@, permissions);

    fn unlink(&mut self, path: &str) -> (r: VfsResult<()>)
        ensures
            r == old(self).unlink_spec(path@);

    fn rmdir(&mut self, path: &str) -> VfsResult<()>;

    fn rename(&mut self, from: &str, to: &str) -> VfsResult<()>;

    fn read(&self, inode: u64, offset: u64, buffer: &mut [u8]) -> (r: VfsResult<usize>)
        ensures
            r == self.read_spec(inode, offset, old(buffer)@.len()),
            final(buffer)@ == self.read_fill_spec(inode, offset, old(buffer)@);

    fn write(&mut self, inode: u64, offset: u64, data: &[u8]) -> (r: VfsResult<usize>)
        ensures
            r == old(self).write_spec(inode, offset, data@);

    fn truncate(&mut self, path: &str, size: u64) -> VfsResult<()>;

    fn statfs(&self) -> VfsResult<FsStats>;
}

/// Capacity of the path-resolution cache.
pub const MAX_PATH_CACHE_SIZE: usize = 256;

struct MountPoint<F> {
    path: Vec<char>,
    fs: F,
    fs_id: usize,
}

struct CacheSlot {
    key: Vec<char>,
    fs_id: usize,
    rel: Vec<char>,
}

/// A mount-table row: mount path and file-system id.
pub type MountRow = (Seq<char>, usize);
/// A cache row: normalised path, file-system id, path relative to the mount.
pub type CacheRow = (Seq<char>, usize, Seq<char>);

/// `norm` is the mount path itself or lies below it.
pub open spec fn is_under(norm: Seq<char>, mp: Seq<char>) -> bool {
    norm == mp || (norm.len() > mp.len() && norm.subrange(0, mp.len() as int) == mp && norm[mp.len() as int] == '/')
}

/// The path inside the mounted file system.
pub open spec fn relative(norm: Seq<char>, mp: Seq<char>) -> Seq<char> {
    if norm == mp { seq!['/'] } else { norm.subrange(mp.len() as int, norm.len() as int) }
}

pub open spec fn covers(norm: Seq<char>) -> spec_fn(MountRow) -> bool {
    |m: MountRow| is_under(norm, m.0)
}

pub open spec fn is_root_mount() -> spec_fn(MountRow) -> bool {
    |m: MountRow| m.0 == seq!['/']
}

pub open spec fn has_id(id: usize) -> spec_fn(MountRow) -> bool {
    |m: MountRow| m.1 == id
}

pub open spec fn has_path(p: Seq<char>) -> spec_fn(MountRow) -> bool {
    |m: MountRow| m.0 == p
}

pub open spec fn has_key(k: Seq<char>) -> spec_fn(CacheRow) -> bool {
    |c: CacheRow| c.0 == k
}

/// Resolution against the mount table: the first mount (longest path first)
/// that covers the path, else the root mount with the whole path.
pub open spec fn resolve_spec(t: Seq<MountRow>, norm: Seq<char>) -> Option<(usize, Seq<char>)> {
    let i = first_index(t, covers(norm));
    if i >= 0 {
        Some((t[i].1, relative(norm, t[i].0)))
    } else {
        let r = first_index(t, is_root_mount());
        if r >= 0 { Some((t[r].1, norm)) } else { None }
    }
}

/// Resolution as the manager answers it: a cached answer wins.
pub open spec fn lookup_spec(c: Seq<CacheRow>, t: Seq<MountRow>, norm: Seq<char>) -> Option<(usize, Seq<char>)> {
    let k = first_index(c, has_key(norm));
    if k >= 0 { Some((c[k].1, c[k].2)) } else { resolve_spec(t, norm) }
}

/// The cache after a resolution of `norm`: a hit moves to the back, a miss
/// that resolves is appended, evicting the oldest row at capacity.
pub open spec fn touched_cache(c: Seq<CacheRow>, t: Seq<MountRow>, norm: Seq<char>) -> Seq<CacheRow> {
    let k = first_index(c, has_key(norm));
    if k >= 0 {
        c.remove(k).push(c[k])
    } else {
        match resolve_spec(t, norm) {
            None => c,
            Some(r) => (if c.len() >= MAX_PATH_CACHE_SIZE { c.drop_first() } else { c }).push((norm, r.0, r.1)),
        }
    }
}

/// Number of leading rows whose path is at least `len` long.
pub open spec fn insert_pos(t: Seq<MountRow>, len: nat) -> nat
    decreases t.len(),
{
    if t.len() == 0 {
        0
    } else if t[0].0.len() >= len {
        1 + insert_pos(t.drop_first(), len)
    } else {
        0
    }
}

/// Virtual file-system manager over file systems of type `F`.
pub struct VfsManager<F: Filesystem> {
    mounts: Vec<MountPoint<F>>,
    next_fs_id: u64,
    cache: Vec<CacheSlot>,
}

impl<F: Filesystem> VfsManager<F> {
    /// Mount paths and ids, longest path first.
    pub closed spec fn table(&self) -> Seq<MountRow> {
        self.mounts@.map_values(|m: MountPoint<F>| (m.path@, m.fs_id))
    }

    /// The file system of mount row `i`.
    pub closed spec fn fs(&self, i: int) -> F {
        self.mounts@[i].fs
    }

    /// Cached resolutions, least recently used first.
    pub closed spec fn cache_rows(&self) -> Seq<CacheRow> {
        self.cache@.map_values(|c: CacheSlot| (c.key@, c.fs_id, c.rel@))
    }

    /// Id the next mount receives.
    pub closed spec fn next_id(&self) -> u64 {
        self.next_fs_id
    }

    pub closed spec fn wf(&self) -> bool {
        &&& self.cache@.len() <= MAX_PATH_CACHE_SIZE
        &&& forall|i: int, j: int| 0 <= i < j < self.mounts@.len() ==>
                (#[trigger] self.mounts@[i]).path@.len() >= (#[trigger] self.mounts@[j]).path@.len()
    }

    /// Every cached row agrees with a fresh resolution.
    pub open spec fn cache_coherent(&self) -> bool {
        forall|k: int| 0 <= k < self.cache_rows().len() ==>
            resolve_spec(self.table(), (#[trigger] self.cache_rows()[k]).0) == Some((self.cache_rows()[k].1, self.cache_rows()[k].2))
    }

    /// How `path` resolves now.
    pub open spec fn lookup(&self, path: Seq<char>) -> Option<(usize, Seq<char>)> {
        lookup_spec(self.cache_rows(), self.table(), normalized(path))
    }

    /// Index of the first mount with the given id, or -1.
    pub open spec fn mount_index(&self, fs_id: usize) -> int {
        first_index(self.table(), has_id(fs_id))
    }

    /// Same mount rows and file systems.
    pub closed spec fn same_mounts(&self, other: &Self) -> bool {
        self.mounts@ == other.mounts@
    }

    /// Rows other than `i` keep their file system.
    pub open spec fn others_unchanged(&self, other: &Self, i: int) -> bool {
        &&& self.table() == other.table()
        &&& forall|j: int| 0 <= j < self.table().len() && j != i ==> self.fs(j) == other.fs(j)
    }

    pub fn new() -> (v: Self)
        ensures
            v.wf(),
            v.table() == Seq::<MountRow>::empty(),
            v.cache_rows() == Seq::<CacheRow>::empty(),
            v.cache_coherent(),
            v.next_id() == 1,
    {
        let v = VfsManager { mounts: Vec::new(), next_fs_id: 1, cache: Vec::new() };
        assert(v.table() =~= Seq::<MountRow>::empty());
        assert(v.cache_rows() =~= Seq::<CacheRow>::empty());
        v
    }

    fn find_id(&self, fs_id: usize) -> (r: Option<usize>)
        ensures
            match r {
                Some(i) => i as int == self.mount_index(fs_id) && i < self.mounts@.len(),
                None => self.mount_index(fs_id) == -1,
            },
    {
        let mut i: usize = 0;
        while i < self.mounts.len()
            invariant
                i <= self.mounts@.len(),
                forall|j: int| 0 <= j < i ==> !has_id(fs_id)(self.table()[j]),
            decreases self.mounts@.len() - i,
        {
            if self.mounts[i].fs_id == fs_id {
                proof { lemma_first_index(self.table(), has_id(fs_id), i as int); }
                return Some(i);
            }
            i = i + 1;
        }
        proof { lemma_first_index(self.table(), has_id(fs_id), i as int); }
        None
    }

    fn find_path(&self, p: &Vec<char>) -> (r: Option<usize>)
        ensures
            match r {
                Some(i) => i as int == first_index(self.table(), has_path(p@)) && i < self.mounts@.len(),
                None => first_index(self.table(), has_path(p@)) == -1,
            },
    {
        let mut i: usize = 0;
        while i < self.mounts.len()
            invariant
                i <= self.mounts@.len(),
                forall|j: int| 0 <= j < i ==> !has_path(p@)(self.table()[j]),
            decreases self.mounts@.len() - i,
        {
            if chars_eq(&self.mounts[i].path, p) {
                proof { lemma_first_index(self.table(), has_path(p@), i as int); }
                return Some(i);
            }
            i = i + 1;
        }
        proof { lemma_first_index(self.table(), has_path(p@), i as int); }
        None
    }

    fn covers_exec(norm: &Vec<char>, mp: &Vec<char>) -> (r: bool)
        ensures
            r == is_under(norm@, mp@),
    {
        if chars_eq(norm, mp) {
            return true;
        }
        if norm.len() <= mp.len() {
            return false;
        }
        let mut i: usize = 0;
        while i < mp.len()
            invariant
                mp@.len() < norm@.len(),
                i <= mp@.len(),
                forall|j: int| 0 <= j < i ==> norm@[j] == mp@[j],
            decreases mp@.len() - i,
        {
            if norm[i] != mp[i] {
                assert(norm@.subrange(0, mp@.len() as int)[i as int] != mp@[i as int]);
                return false;
            }
            i = i + 1;
        }
        assert(norm@.subrange(0, mp@.len() as int) =~= mp@);
        norm[mp.len()] == '/'
    }

    fn resolve_fresh(&self, norm: &Vec<char>) -> (r: Option<(usize, Vec<char>)>)
        ensures
            match r {
                Some((id, rel)) => resolve_spec(self.table(), norm@) == Some((id, rel@)),
                None => resolve_spec(self.table(), norm@) is None,
            },
    {
        let mut i: usize = 0;
        while i < self.mounts.len()
            invariant
                i <= self.mounts@.len(),
                forall|j: int| 0 <= j < i ==> !covers(norm@)(self.table()[j]),
            decreases self.mounts@.len() - i,
        {
            if Self::covers_exec(norm, &self.mounts[i].path) {
                proof { lemma_first_index(self.table(), covers(norm@), i as int); }
                let mp = &self.mounts[i].path;
                let mut rel: Vec<char> = Vec::new();
                if chars_eq(norm, mp) {
                    rel.push('/');
                    assert(rel@ =~= seq!['/']);
                } else {
                    let mut k: usize = mp.len();
                    while k < norm.len()
                        invariant
                            mp@.len() <= k <= norm@.len(),
                            rel@ == norm@.subrange(mp@.len() as int, k as int),
                        decreases norm@.len() - k,
                    {
                        rel.push(norm[k]);
                        k = k + 1;
                        assert(rel@ =~= norm@.subrange(mp@.len() as int, k as int));
                    }
                }
                return Some((self.mounts[i].fs_id, rel));
            }
            i = i + 1;
        }
        proof { lemma_first_index(self.table(), covers(norm@), i as int); }
        let root: Vec<char> = vec!['/'];
        let r = self.find_path(&root);
        assert(root@ =~= seq!['/']);
        assert(has_path(root@) == is_root_mount());
        match r {
            Some(j) => {
                let mut copy: Vec<char> = Vec::new();
                let mut k: usize = 0;
                while k < norm.len()
                    invariant
                        k <= norm@.len(),
                        copy@ == norm@.subrange(0, k as int),
                    decreases norm@.len() - k,
                {
                    copy.push(norm[k]);
                    k = k + 1;
                    assert(copy@ =~= norm@.subrange(0, k as int));
                }
                assert(copy@ =~= norm@);
                Some((self.mounts[j].fs_id, copy))
            },
            None => None,
        }
    }

    fn copy_chars(v: &Vec<char>) -> (r: Vec<char>)
        ensures
            r@ == v@,
    {
        let mut r: Vec<char> = Vec::new();
        let mut k: usize = 0;
        while k < v.len()
            invariant
                k <= v@.len(),
                r@ == v@.subrange(0, k as int),
            decreases v@.len() - k,
        {
            r.push(v[k]);
            k = k + 1;
            assert(r@ =~= v@.subrange(0, k as int));
        }
        assert(r@ =~= v@);
        r
    }

    /// Resolves a path to (file-system id, path inside it), updating the cache.
    fn resolve_path(&mut self, path: &str) -> (r: VfsResult<(usize, Vec<char>)>)
        requires
            old(self).wf(),
        ensures
            final(self).wf(),
            final(self).mounts@ == old(self).mounts@,
            final(self).next_fs_id == old(self).next_fs_id,
            final(self).cache_rows() == touched_cache(old(self).cache_rows(), old(self).table(), normalized(path@)),
            match r {
                Ok((id, rel)) => old(self).lookup(path@) == Some((id, rel@)),
                Err(e) => e == VfsError::NotMounted && old(self).lookup(path@) is None,
            },
    {
        let norm = normalize_chars(path);
        let ghost c = self.cache_rows();
        let ghost n = norm@;
        let mut k: usize = 0;
        while k < self.cache.len()
            invariant
                k <= self.cache@.len(),
                c == self.cache_rows(),
                n == norm@,
                n == normalized(path@),
                self.wf(),
                self.mounts@ == old(self).mounts@,
                self.next_fs_id == old(self).next_fs_id,
                c == old(self).cache_rows(),
                forall|j: int| 0 <= j < k ==> !has_key(n)(c[j]),
            decreases self.cache@.len() - k,
        {
            assert(c[k as int].0 == self.cache@[k as int].key@);
            if chars_eq(&self.cache[k].key, &norm) {
                proof { lemma_first_index(c, has_key(n), k as int); }
                let slot = self.cache.remove(k);
                let result = (slot.fs_id, Self::copy_chars(&slot.rel));
                self.cache.push(slot);
                assert(self.cache_rows() =~= c.remove(k as int).push(c[k as int]));
                return Ok(result);
            }
            k = k + 1;
        }
        proof { lemma_first_index(c, has_key(n), k as int); }
        match self.resolve_fresh(&norm) {
            None => Err(VfsError::NotMounted),
            Some((id, rel)) => {
                if self.cache.len() >= MAX_PATH_CACHE_SIZE {
                    self.cache.remove(0);
                    assert(self.cache_rows() =~= c.drop_first());
                }
                let ghost c1 = self.cache_rows();
                let rel_copy = Self::copy_chars(&rel);
                self.cache.push(CacheSlot { key: norm, fs_id: id, rel: rel_copy });
                assert(self.cache_rows() =~= c1.push((n, id, rel@)));
                Ok((id, rel))
            },
        }
    }

    /// Mounts `fs` at the normalised `mount_path`: `fs` is mounted first;
    /// when the path is taken it is unmounted again (its answer ignored) and
    /// dropped, and the table stays as it was.
    pub fn mount(&mut self, mount_path: &str, fs: F) -> (r: VfsResult<()>)
        requires
            old(self).wf(),
        ensures
            final(self).wf(),
            ({
                let p = normalized(mount_path@);
                let k = insert_pos(old(self).table(), p.len()) as int;
                match fs.mount_spec() {
                    Err(e) => r == Err::<(), VfsError>(e) && final(self).table() == old(self).table()
                        && final(self).same_mounts(old(self))
                        && final(self).cache_rows() == old(self).cache_rows()
                        && final(self).next_id() == old(self).next_id(),
                    Ok(_) => {
                        &&& final(self).next_id() == (old(self).next_id() + 1) % 0x1_0000_0000_0000_0000
                        &&& if first_index(old(self).table(), has_path(p)) >= 0 {
                            r == Err::<(), VfsError>(VfsError::AlreadyExists) && final(self).table() == old(self).table()
                                && final(self).same_mounts(old(self))
                                && final(self).cache_rows() == old(self).cache_rows()
                        } else {
                            &&& r == Ok::<(), VfsError>(())
                            &&& final(self).table() == old(self).table().insert(k, (p, old(self).next_id() as usize))
                            &&& final(self).fs(k) == fs.mounted_spec()
                            &&& final(self).fs(k).name_spec() == fs.name_spec()
                            &&& forall|j: int| 0 <= j < k ==> #[trigger] final(self).fs(j) == old(self).fs(j)
                            &&& forall|j: int| k <= j < old(self).table().len() ==> #[trigger] final(self).fs(j + 1) == old(self).fs(j)
                            &&& final(self).cache_rows() == Seq::<CacheRow>::empty()
                        }
                    },
                }
            }),
            old(self).cache_coherent() && r is Err ==> final(self).cache_coherent(),
            r is Ok ==> final(self).cache_coherent(),
    {
        let path = normalize_chars(mount_path);
        let mut fs = fs;
        match fs.mount() {
            Err(e) => return Err(e),
            Ok(()) => {},
        }
        let fs_id = self.next_fs_id as usize;
        self.next_fs_id = self.next_fs_id.wrapping_add(1);
        if self.find_path(&path).is_some() {
            let _ = fs.unmount();
            return Err(VfsError::AlreadyExists);
        }
        let ghost t = self.table();
        let ghost l = path@.len();
        let mut k: usize = 0;
        assert(t.skip(0) =~= t);
        while k < self.mounts.len() && self.mounts[k].path.len() >= path.len()
            invariant
                k <= self.mounts@.len(),
                t == self.table(),
                l == path@.len(),
                insert_pos(t, l) == k + insert_pos(t.skip(k as int), l),
                forall|j: int| 0 <= j < k ==> self.mounts@[j].path@.len() >= l,
            decreases self.mounts@.len() - k,
        {
            assert(t.skip(k as int)[0] == t[k as int]);
            assert(t.skip(k as int).drop_first() =~= t.skip(k + 1));
            k = k + 1;
        }
        proof {
            if k < self.mounts@.len() {
                assert(t.skip(k as int)[0] == t[k as int]);
            }
        }
        let ghost old_mounts = self.mounts@;
        self.mounts.insert(k, MountPoint { path, fs, fs_id });
        proof {
            assert(self.table() =~= t.insert(k as int, (path@, fs_id)));
            assert forall|j: int| k <= j < old_mounts.len() implies #[trigger] self.fs(j + 1) == old(self).fs(j) by {
                assert(self.mounts@[j + 1] == old_mounts[j]);
            }
            assert forall|j: int| 0 <= j < k implies #[trigger] self.fs(j) == old(self).fs(j) by {
                assert(self.mounts@[j] == old_mounts[j]);
            }
            assert forall|i: int, j: int| 0 <= i < j < self.mounts@.len() implies
                (#[trigger] self.mounts@[i]).path@.len() >= (#[trigger] self.mounts@[j]).path@.len() by {
                if i < k && j > k {
                    assert(self.mounts@[j] == old_mounts[j - 1]);
                } else if i > k {
                    assert(self.mounts@[i] == old_mounts[i - 1]);
                    assert(self.mounts@[j] == old_mounts[j - 1]);
                } else if i == k && j > k {
                    assert(self.mounts@[j] == old_mounts[j - 1]);
                    if k < old_mounts.len() {
                        assert(old_mounts[k as int].path@.len() < l);
                        assert(old_mounts[k as int].path@.len() >= old_mounts[j - 1].path@.len() || j - 1 == k);
                    }
                }
            }
        }
        self.cache.clear();
        assert(self.cache_rows() =~= Seq::<CacheRow>::empty());
        Ok(())
    }

    /// Unmounts the file system mounted at the normalised `mount_path`. The
    /// mount row goes away even when the file system reports an error, and the
    /// cache is emptied only on success.
    pub fn unmount(&mut self, mount_path: &str) -> (r: VfsResult<()>)
        requires
            old(self).wf(),
        ensures
            final(self).wf(),
            final(self).next_id() == old(self).next_id(),
            ({
                let p = normalized(mount_path@);
                let i = first_index(old(self).table(), has_path(p));
                if i < 0 {
                    r == Err::<(), VfsError>(VfsError::NotMounted) && final(self).table() == old(self).table()
                        && final(self).same_mounts(old(self))
                        && final(self).cache_rows() == old(self).cache_rows()
                } else {
                    &&& r == old(self).fs(i).unmount_spec()
                    &&& final(self).table() == old(self).table().remove(i)
                    &&& forall|j: int| 0 <= j < final(self).table().len() ==>
                        #[trigger] final(self).fs(j) == old(self).fs(if j < i { j } else { j + 1 })
                    &&& r is Ok ==> final(self).cache_rows() == Seq::<CacheRow>::empty()
                    &&& r is Err ==> final(self).cache_rows() == old(self).cache_rows()
                }
            }),
            r is Ok ==> final(self).cache_coherent(),
    {
        let path = normalize_chars(mount_path);
        match self.find_path(&path) {
            None => Err(VfsError::NotMounted),
            Some(pos) => {
                let ghost old_mounts = self.mounts@;
                let mut m = self.mounts.remove(pos);
                assert(self.table() =~= old(self).table().remove(pos as int));
                assert forall|j: int| 0 <= j < self.table().len() implies
                    #[trigger] self.fs(j) == old(self).fs(if j < pos { j } else { j + 1 }) by {
                    assert(self.mounts@[j] == old_mounts[if j < pos { j } else { j + 1 }]);
                }
                proof {
                    assert forall|i: int, j: int| 0 <= i < j < self.mounts@.len() implies
                        (#[trigger] self.mounts@[i]).path@.len() >= (#[trigger] self.mounts@[j]).path@.len() by {
                        if j < pos {
                        } else if i < pos {
                            assert(self.mounts@[j] == old_mounts[j + 1]);
                        } else {
                            assert(self.mounts@[i] == old_mounts[i + 1]);
                            assert(self.mounts@[j] == old_mounts[j + 1]);
                        }
                    }
                }
                assert(m == old(self).mounts@[pos as int]);
                assert(old(self).fs(pos as int) == m.fs);
                let ghost t1 = self.table();
                let ghost c1 = self.cache_rows();
                let mut f = m.fs;
                let res = f.unmount();
                assert(res == old(self).fs(pos as int).unmount_spec());
                assert(pos as int == first_index(old(self).table(), has_path(normalized(mount_path@))));
                if res.is_ok() {
                    self.cache.clear();
                    assert(self.cache_rows() =~= Seq::<CacheRow>::empty());
                }
                res
            },
        }
    }

    /// Opens the file at `path`; with `flags.create`, a missing file is created.
    pub fn open(&mut self, path: &str, flags: OpenFlags) -> (r: VfsResult<FileHandle>)
        requires
            old(self).wf(),
        ensures
            final(self).wf(),
            final(self).cache_rows() == touched_cache(old(self).cache_rows(), old(self).table(), normalized(path@)),
            match old(self).lookup(path@) {
                None => r == Err::<FileHandle, VfsError>(VfsError::NotMounted) && final(self).same_mounts(old(self)),
                Some((id, rel)) => {
                    let i = old(self).mount_index(id);
                    if i < 0 {
                        r == Err::<FileHandle, VfsError>(VfsError::NotMounted) && final(self).same_mounts(old(self))
                    } else {
                        match old(self).fs(i).getattr_spec(rel) {
                            Ok(a) => {
                                &&& final(self).same_mounts(old(self))
                                &&& if a.file_type == FileType::Directory {
                                    r == Err::<FileHandle, VfsError>(VfsError::IsDirectory)
                                } else {
                                    r matches Ok(h) && h.inode == a.inode && h.flags == flags && h.fs_id == id && h.pos() == 0
                                }
                            },
                            Err(e) => if e == VfsError::NotFound && flags.create {
                                &&& final(self).others_unchanged(old(self), i)
                                &&& match old(self).fs(i).create_spec(rel, Permissions { read: true, write: true, execute: false }) {
                                    Ok(ino) => r matches Ok(h) && h.inode == ino && h.flags == flags && h.fs_id == id && h.pos() == 0,
                                    Err(e2) => r == Err::<FileHandle, VfsError>(e2),
                                }
                            } else {
                                r == Err::<FileHandle, VfsError>(e) && final(self).same_mounts(old(self))
                            },
                        }
                    }
                },
            },
    {
        let (fs_id, rel) = match self.resolve_path(path) {
            Ok(x) => x,
            Err(e) => return Err(e),
        };
        let rel_s = string_from_chars(&rel);
        let i = match self.find_id(fs_id) {
            Some(i) => i,
            None => return Err(VfsError::NotMounted),
        };
        match self.mounts[i].fs.getattr(rel_s.as_str()) {
            Ok(attr) => {
                if attr.file_type == FileType::Directory {
                    return Err(VfsError::IsDirectory);
                }
                Ok(FileHandle::new(attr.inode, flags, fs_id))
            },
            Err(e) => {
                if e == VfsError::NotFound && flags.create {
                    let ghost before = self.mounts@;
                    let mut m = self.mounts.remove(i);
                    let res = m.fs.create(rel_s.as_str(), Permissions::default_permissions());
                    self.mounts.insert(i, m);
                    proof {
                        assert(self.table() =~= old(self).table());
                        assert forall|j: int, k: int| 0 <= j < k < self.mounts@.len() implies
                            (#[trigger] self.mounts@[j]).path@.len() >= (#[trigger] self.mounts@[k]).path@.len() by {
                            assert(self.mounts@[j].path == before[j].path);
                            assert(self.mounts@[k].path == before[k].path);
                        }
                    }
                    match res {
                        Ok(inode) => Ok(FileHandle::new(inode, flags, fs_id)),
                        Err(e2) => Err(e2),
                    }
                } else {
                    Err(e)
                }
            },
        }
    }
    /// Creates a regular file at `path` with the given permissions.
    pub fn create(&mut self, path: &str, permissions: Permissions) -> (r: VfsResult<u64>)
        requires
            old(self).wf(),
        ensures
            final(self).wf(),
            final(self).cache_rows() == touched_cache(old(self).cache_rows(), old(self).table(), normalized(path@)),
            match old(self).lookup(path@) {
                None => r == Err::<u64, VfsError>(VfsError::NotMounted) && final(self).same_mounts(old(self)),
                Some((id, rel)) => {
                    let i = old(self).mount_index(id);
                    if i < 0 {
                        r == Err::<u64, VfsError>(VfsError::NotMounted) && final(self).same_mounts(old(self))
                    } else {
                        r == old(self).fs(i).create_spec(rel, permissions) && final(self).others_unchanged(old(self), i)
                    }
                },
            },
    {
        let (fs_id, rel) = match self.resolve_path(path) {
            Ok(x) => x,
            Err(e) => return Err(e),
        };
        let rel_s = string_from_chars(&rel);
        let i = match self.find_id(fs_id) {
            Some(i) => i,
            None => return Err(VfsError::NotMounted),
        };
        let ghost before = self.mounts@;
        let r = self.mounts[i].fs.create(rel_s.as_str(), permissions);
        proof {
            assert(self.table() =~= old(self).table());
            assert forall|j: int, k: int| 0 <= j < k < self.mounts@.len() implies
                (#[trigger] self.mounts@[j]).path@.len() >= (#[trigger] self.mounts@[k]).path@.len() by {
                assert(self.mounts@[j].path == before[j].path);
                assert(self.mounts@[k].path == before[k].path);
            }
        }
        r
    }
    /// Removes the file at `path`.
    pub fn unlink(&mut self, path: &str) -> (r: VfsResult<()>)
        requires
            old(self).wf(),
        ensures
            final(self).wf(),
            final(self).cache_rows() == touched_cache(old(self).cache_rows(), old(self).table(), normalized(path@)),
            match old(self).lookup(path@) {
                None => r == Err::<(), VfsError>(VfsError::NotMounted) && final(self).same_mounts(old(self)),
                Some((id, rel)) => {
                    let i = old(self).mount_index(id);
                    if i < 0 {
                        r == Err::<(), VfsError>(VfsError::NotMounted) && final(self).same_mounts(old(self))
                    } else {
                        r == old(self).fs(i).unlink_spec(rel) && final(self).others_unchanged(old(self), i)
                    }
                },
            },
    {
        let (fs_id, rel) = match self.resolve_path(path) {
            Ok(x) => x,
            Err(e) => return Err(e),
        };
        let rel_s = string_from_chars(&rel);
        let i = match self.find_id(fs_id) {
            Some(i) => i,
            None => return Err(VfsError::NotMounted),
        };
        let ghost before = self.mounts@;
        let r = self.mounts[i].fs.unlink(rel_s.as_str());
        proof {
            assert(self.table() =~= old(self).table());
            assert forall|j: int, k: int| 0 <= j < k < self.mounts@.len() implies
                (#[trigger] self.mounts@[j]).path@.len() >= (#[trigger] self.mounts@[k]).path@.len() by {
                assert(self.mounts@[j].path == before[j].path);
                assert(self.mounts@[k].path == before[k].path);
            }
        }
        r
    }

    /// Creates a directory at `path`.
    pub fn mkdir(&mut self, path: &str, permissions: Permissions) -> (r: VfsResult<()>)
        requires
            old(self).wf(),
        ensures
            final(self).wf(),
            final(self).cache_rows() == touched_cache(old(self).cache_rows(), old(self).table(), normalized(path@)),
            match old(self).lookup(path@) {
                None => r == Err::<(), VfsError>(VfsError::NotMounted) && final(self).same_mounts(old(self)),
                Some((id, rel)) => {
                    let i = old(self).mount_index(id);
                    if i < 0 {
                        r == Err::<(), VfsError>(VfsError::NotMounted) && final(self).same_mounts(old(self))
                    } else {
                        r == old(self).fs(i).mkdir_spec(rel, permissions) && final(self).others_unchanged(old(self), i)
                    }
                },
            },
    {
        let (fs_id, rel) = match self.resolve_path(path) {
            Ok(x) => x,
            Err(e) => return Err(e),
        };
        let rel_s = string_from_chars(&rel);
        let i = match self.find_id(fs_id) {
            Some(i) => i,
            None => return Err(VfsError::NotMounted),
        };
        let ghost before = self.mounts@;
        let r = self.mounts[i].fs.mkdir(rel_s.as_str(), permissions);
        proof {
            assert(self.table() =~= old(self).table());
            assert forall|j: int, k: int| 0 <= j < k < self.mounts@.len() implies
                (#[trigger] self.mounts@[j]).path@.len() >= (#[trigger] self.mounts@[k]).path@.len() by {
                assert(self.mounts@[j].path == before[j].path);
                assert(self.mounts@[k].path == before[k].path);
            }
        }
        r
    }

    /// Lists the directory at `path`.
    pub fn readdir(&mut self, path: &str) -> (r: VfsResult<Vec<DirEntry>>)
        requires
            old(self).wf(),
        ensures
            final(self).wf(),
            final(self).cache_rows() == touched_cache(old(self).cache_rows(), old(self).table(), normalized(path@)),
            match old(self).lookup(path@) {
                None => r == Err::<Vec<DirEntry>, VfsError>(VfsError::NotMounted) && final(self).same_mounts(old(self)),
                Some((id, rel)) => {
                    let i = old(self).mount_index(id);
                    if i < 0 {
                        r == Err::<Vec<DirEntry>, VfsError>(VfsError::NotMounted) && final(self).same_mounts(old(self))
                    } else {
                        r == old(self).fs(i).readdir_spec(rel) && final(self).same_mounts(old(self))
                    }
                },
            },
    {
        let (fs_id, rel) = match self.resolve_path(path) {
            Ok(x) => x,
            Err(e) => return Err(e),
        };
        let rel_s = string_from_chars(&rel);
        let i = match self.find_id(fs_id) {
            Some(i) => i,
            None => return Err(VfsError::NotMounted),
        };
        self.mounts[i].fs.readdir(rel_s.as_str())
    }

    /// Attributes of the file at `path`.
    pub fn stat(&mut self, path: &str) -> (r: VfsResult<FileAttr>)
        requires
            old(self).wf(),
        ensures
            final(self).wf(),
            final(self).cache_rows() == touched_cache(old(self).cache_rows(), old(self).table(), normalized(path@)),
            match old(self).lookup(path@) {
                None => r == Err::<FileAttr, VfsError>(VfsError::NotMounted) && final(self).same_mounts(old(self)),
                Some((id, rel)) => {
                    let i = old(self).mount_index(id);
                    if i < 0 {
                        r == Err::<FileAttr, VfsError>(VfsError::NotMounted) && final(self).same_mounts(old(self))
                    } else {
                        r == old(self).fs(i).getattr_spec(rel) && final(self).same_mounts(old(self))
                    }
                },
            },
    {
        let (fs_id, rel) = match self.resolve_path(path) {
            Ok(x) => x,
            Err(e) => return Err(e),
        };
        let rel_s = string_from_chars(&rel);
        let i = match self.find_id(fs_id) {
            Some(i) => i,
            None => return Err(VfsError::NotMounted),
        };
        self.mounts[i].fs.getattr(rel_s.as_str())
    }

    /// Reads into `buffer` at the handle's position and advances it by the
    /// number of bytes read. Needs read permission in the handle's flags.
    pub fn read(&self, handle: &mut FileHandle, buffer: &mut [u8]) -> (r: VfsResult<usize>)
        requires
            self.wf(),
        ensures
            !old(handle).flags.read ==> r == Err::<usize, VfsError>(VfsError::PermissionDenied)
                && *final(handle) == *old(handle) && final(buffer)@ == old(buffer)@,
            old(handle).flags.read && self.mount_index(old(handle).fs_id) < 0 ==> r == Err::<usize, VfsError>(VfsError::NotMounted)
                && *final(handle) == *old(handle) && final(buffer)@ == old(buffer)@,
            old(handle).flags.read && self.mount_index(old(handle).fs_id) >= 0 ==> {
                let f = self.fs(self.mount_index(old(handle).fs_id));
                &&& r == f.read_spec(old(handle).inode, old(handle).position, old(buffer)@.len())
                &&& final(buffer)@ == f.read_fill_spec(old(handle).inode, old(handle).position, old(buffer)@)
                &&& match r {
                    Ok(n) => final(handle).position == (old(handle).position + n) % 0x1_0000_0000_0000_0000
                        && final(handle).inode == old(handle).inode && final(handle).flags == old(handle).flags
                        && final(handle).fs_id == old(handle).fs_id,
                    Err(_) => *final(handle) == *old(handle),
                }
            },
    {
        if !handle.flags.read {
            return Err(VfsError::PermissionDenied);
        }
        let i = match self.find_id(handle.fs_id) {
            Some(i) => i,
            None => return Err(VfsError::NotMounted),
        };
        let pos = handle.position();
        let n = match self.mounts[i].fs.read(handle.inode, pos, buffer) {
            Ok(n) => n,
            Err(e) => return Err(e),
        };
        handle.advance(n as u64);
        Ok(n)
    }

    /// Writes `data` at the handle's position (in append mode, at the end
    /// of the handle's file, the size its inode has) and advances the position by the
    /// number of bytes written. Needs write permission in the handle's flags.
    pub fn write(&mut self, handle: &mut FileHandle, data: &[u8]) -> (r: VfsResult<usize>)
        requires
            old(self).wf(),
        ensures
            final(self).wf(),
            final(self).cache_rows() == old(self).cache_rows(),
            !old(handle).flags.write ==> r == Err::<usize, VfsError>(VfsError::PermissionDenied)
                && *final(handle) == *old(handle) && final(self).same_mounts(old(self)),
            old(handle).flags.write && old(self).mount_index(old(handle).fs_id) < 0 ==> r == Err::<usize, VfsError>(VfsError::NotMounted)
                && *final(handle) == *old(handle) && final(self).same_mounts(old(self)),
            old(handle).flags.write && old(self).mount_index(old(handle).fs_id) >= 0 ==> {
                let i = old(self).mount_index(old(handle).fs_id);
                let f = old(self).fs(i);
                if old(handle).flags.append && f.inode_attr_spec(old(handle).inode) is Err {
                    r == Err::<usize, VfsError>(f.inode_attr_spec(old(handle).inode)->Err_0) && *final(handle) == *old(handle)
                        && final(self).same_mounts(old(self))
                } else {
                    let pos = if old(handle).flags.append { f.inode_attr_spec(old(handle).inode)->Ok_0.size } else { old(handle).position };
                    &&& r == f.write_spec(old(handle).inode, pos, data@)
                    &&& final(self).others_unchanged(old(self), i)
                    &&& match r {
                        Ok(n) => final(handle).position == (old(handle).position + n) % 0x1_0000_0000_0000_0000
                            && final(handle).inode == old(handle).inode && final(handle).flags == old(handle).flags
                            && final(handle).fs_id == old(handle).fs_id,
                        Err(_) => *final(handle) == *old(handle),
                    }
                }
            },
    {
        if !handle.flags.write {
            return Err(VfsError::PermissionDenied);
        }
        let i = match self.find_id(handle.fs_id) {
            Some(i) => i,
            None => return Err(VfsError::NotMounted),
        };
        let pos = if handle.flags.append {
            match self.mounts[i].fs.inode_attr(handle.inode) {
                Ok(attr) => attr.size,
                Err(e) => return Err(e),
            }
        } else {
            handle.position()
        };
        let ghost before = self.mounts@;
        let res = self.mounts[i].fs.write(handle.inode, pos, data);
        proof {
            assert(self.table() =~= old(self).table());
            assert forall|j: int, k: int| 0 <= j < k < self.mounts@.len() implies
                (#[trigger] self.mounts@[j]).path@.len() >= (#[trigger] self.mounts@[k]).path@.len() by {
                assert(self.mounts@[j].path == before[j].path);
                assert(self.mounts@[k].path == before[k].path);
            }
            assert(self.cache_rows() =~= old(self).cache_rows());
        }
        let n = match res {
            Ok(n) => n,
            Err(e) => return Err(e),
        };
        handle.advance(n as u64);
        Ok(n)
    }

    /// Syncs every mounted file system in table order, stopping at the first error.
    pub fn sync_all(&mut self) -> (r: VfsResult<()>)
        requires
            old(self).wf(),
        ensures
            final(self).wf(),
            final(self).table() == old(self).table(),
            final(self).cache_rows() == old(self).cache_rows(),
            r is Ok <==> forall|i: int| 0 <= i < old(self).table().len() ==> (#[trigger] old(self).fs(i)).sync_spec() is Ok,
            r is Err ==> exists|i: int| 0 <= i < old(self).table().len()
                && (forall|j: int| 0 <= j < i ==> (#[trigger] old(self).fs(j)).sync_spec() is Ok)
                && old(self).fs(i).sync_spec() == r,
    {
        let mut i: usize = 0;
        while i < self.mounts.len()
            invariant
                i <= self.mounts@.len(),
                self.wf(),
                self.table() == old(self).table(),
                self.cache_rows() == old(self).cache_rows(),
                self.mounts@.len() == old(self).mounts@.len(),
                forall|j: int| i <= j < self.mounts@.len() ==> #[trigger] self.fs(j) == old(self).fs(j),
                forall|j: int| 0 <= j < i ==> (#[trigger] old(self).fs(j)).sync_spec() is Ok,
            decreases self.mounts@.len() - i,
        {
            let ghost before = self.mounts@;
            assert forall|j: int| i <= j < before.len() implies before[j].fs == old(self).fs(j) by {
                assert(self.fs(j) == old(self).fs(j));
            }
            let res = self.mounts[i].fs.sync();
            proof {
                assert(self.table() =~= old(self).table());
                assert forall|j: int, k: int| 0 <= j < k < self.mounts@.len() implies
                    (#[trigger] self.mounts@[j]).path@.len() >= (#[trigger] self.mounts@[k]).path@.len() by {
                    assert(self.mounts@[j].path == before[j].path);
                    assert(self.mounts@[k].path == before[k].path);
                }
                assert(self.cache_rows() =~= old(self).cache_rows());
                assert forall|j: int| i < j < self.mounts@.len() implies #[trigger] self.fs(j) == old(self).fs(j) by {
                    assert(self.mounts@[j] == before[j]);
                    assert(before[j].fs == old(self).fs(j));
                }
            }
            if res.is_err() {
                assert(old(self).fs(i as int).sync_spec() == res);
                assert(!(old(self).fs(i as int).sync_spec() is Ok));
                return res;
            }
            i = i + 1;
        }
        Ok(())
    }

    /// Mount paths with the names of their file systems, in table order.
    pub fn list_mounts(&self) -> (r: Vec<(String, &'static str)>)
        ensures
            r@.len() == self.table().len(),
            forall|i: int| 0 <= i < r@.len() ==> (#[trigger] r@[i]).0@ == self.table()[i].0 && r@[i].1@ == self.fs(i).name_spec(),
    {
        let mut out: Vec<(String, &'static str)> = Vec::new();
        let mut i: usize = 0;
        while i < self.mounts.len()
            invariant
                i <= self.mounts@.len(),
                out@.len() == i,
                forall|j: int| 0 <= j < i ==> (#[trigger] out@[j]).0@ == self.table()[j].0 && out@[j].1@ == self.fs(j).name_spec(),
            decreases self.mounts@.len() - i,
        {
            let p = string_from_chars(&self.mounts[i].path);
            let n = self.mounts[i].fs.name();
            out.push((p, n));
            i = i + 1;
        }
        out
    }
}

/// With a coherent cache, resolution through the cache answers exactly what a
/// fresh resolution against the mount table answers.
pub proof fn lemma_cached_resolution<F: Filesystem>(v: &VfsManager<F>, path: Seq<char>)
    requires
        v.cache_coherent(),
    ensures
        v.lookup(path) == resolve_spec(v.table(), normalized(path)),
{
    let c = v.cache_rows();
    let n = normalized(path);
    lemma_first_index_props(c, has_key(n));
    let k = first_index(c, has_key(n));
    if k >= 0 {
        assert(c[k].0 == n);
    }
}

/// A resolution keeps the cache coherent: what it moves or appends agrees
/// with the mount table.
pub proof fn lemma_touch_keeps_coherence(c: Seq<CacheRow>, t: Seq<MountRow>, norm: Seq<char>)
    requires
        forall|k: int| 0 <= k < c.len() ==> resolve_spec(t, (#[trigger] c[k]).0) == Some((c[k].1, c[k].2)),
    ensures
        ({
            let d = touched_cache(c, t, norm);
            forall|k: int| 0 <= k < d.len() ==> resolve_spec(t, (#[trigger] d[k]).0) == Some((d[k].1, d[k].2))
        }),
{
    lemma_first_index_props(c, has_key(norm));
    let k = first_index(c, has_key(norm));
    let d = touched_cache(c, t, norm);
    if k >= 0 {
        assert forall|j: int| 0 <= j < d.len() implies resolve_spec(t, (#[trigger] d[j]).0) == Some((d[j].1, d[j].2)) by {
            if j < k {
                assert(d[j] == c[j]);
            } else if j < d.len() - 1 {
                assert(d[j] == c[j + 1]);
            } else {
                assert(d[j] == c[k]);
            }
        }
    } else {
        match resolve_spec(t, norm) {
            None => {},
            Some(r) => {
                let base = if c.len() >= MAX_PATH_CACHE_SIZE { c.drop_first() } else { c };
                assert forall|j: int| 0 <= j < d.len() implies resolve_spec(t, (#[trigger] d[j]).0) == Some((d[j].1, d[j].2)) by {
                    if j < d.len() - 1 {
                        if c.len() >= MAX_PATH_CACHE_SIZE {
                            assert(d[j] == c[j + 1]);
                        } else {
                            assert(d[j] == c[j]);
                        }
                    }
                }
            },
        }
    }
}

} // verus!
