use astral_kernel::psychicfs::{
    bytes_to_inode, bytes_to_superblock, file_blocks, find_inode_by_name, fs_create, fs_format, fs_list, fs_mount,
    fs_read, inode_to_bytes, superblock_to_bytes, Inode, PsychicFs, Superblock, BITMAP_SECTOR, DATA_BLOCKS_START,
    FS_MAGIC, INODE_TABLE_SECTORS, INODE_TABLE_START,
};

struct Disk {
    sectors: Vec<Vec<u8>>,
}

impl Disk {
    fn new() -> Disk {
        Disk { sectors: vec![vec![0u8; 512]; 8192] }
    }

    fn apply(&mut self, writes: &[(u64, Vec<u8>)]) {
        for (sector, bytes) in writes {
            assert_eq!(bytes.len(), 512);
            self.sectors[*sector as usize] = bytes.clone();
        }
    }

    fn table(&self) -> Vec<u8> {
        let mut t = Vec::new();
        for s in INODE_TABLE_START..INODE_TABLE_START + INODE_TABLE_SECTORS {
            t.extend_from_slice(&self.sectors[s as usize]);
        }
        t
    }

    fn mount(&self) -> Option<PsychicFs> {
        fs_mount(&self.sectors[0], &self.sectors[BITMAP_SECTOR as usize], &self.sectors[BITMAP_SECTOR as usize + 1])
    }

    fn read_file(&self, name: &str) -> Option<Vec<u8>> {
        let table = self.table();
        let (_, inode) = find_inode_by_name(&table, name)?;
        let blocks: Vec<Vec<u8>> = file_blocks(&inode)
            .iter()
            .map(|b| match b {
                Some(p) => self.sectors[*p as usize].clone(),
                None => vec![0u8; 512],
            })
            .collect();
        Some(fs_read(&inode, &blocks))
    }
}

fn formatted() -> (Disk, PsychicFs) {
    let mut disk = Disk::new();
    disk.apply(&fs_format());
    let fs = disk.mount().expect("a formatted disk mounts");
    (disk, fs)
}

#[test]
fn format_then_mount() {
    let (disk, _fs) = formatted();
    let sb = bytes_to_superblock(&disk.sectors[0]);
    assert_eq!(sb.magic, FS_MAGIC);
    assert_eq!(fs_list(&disk.table()).len(), 0);
}

#[test]
fn mount_refuses_unformatted_disk() {
    let disk = Disk::new();
    assert!(disk.mount().is_none());
}

#[test]
fn write_then_read_gives_data_back() {
    let (mut disk, mut fs) = formatted();
    let data = b"hello, psychic world".to_vec();
    let (ok, writes) = fs.fs_write(&disk.table(), "hello.txt", &data, 7);
    assert!(ok);
    disk.apply(&writes);
    assert_eq!(disk.read_file("hello.txt"), Some(data));
}

#[test]
fn write_spanning_several_blocks() {
    let (mut disk, mut fs) = formatted();
    let data: Vec<u8> = (0..1500u32).map(|i| (i % 251) as u8).collect();
    let (ok, writes) = fs.fs_write(&disk.table(), "big.bin", &data, 1);
    assert!(ok);
    assert_eq!(writes.len(), 4);
    disk.apply(&writes);
    assert_eq!(disk.read_file("big.bin"), Some(data));
}

#[test]
fn rewrite_replaces_contents() {
    let (mut disk, mut fs) = formatted();
    let (ok, w) = fs.fs_write(&disk.table(), "f", b"first version", 1);
    assert!(ok);
    disk.apply(&w);
    let (ok, w) = fs.fs_write(&disk.table(), "f", b"second", 2);
    assert!(ok);
    disk.apply(&w);
    assert_eq!(disk.read_file("f"), Some(b"second".to_vec()));
    assert_eq!(fs_list(&disk.table()), vec!["f".to_string()]);
}

#[test]
fn create_list_and_delete() {
    let (mut disk, mut fs) = formatted();
    let (sector, bytes) = fs_create(&disk.table(), "notes.md", 3).expect("created");
    disk.apply(&[(sector, bytes)]);
    assert_eq!(fs_list(&disk.table()), vec!["notes.md".to_string()]);
    assert!(fs_create(&disk.table(), "notes.md", 4).is_none());
    let w = fs.fs_delete(&disk.table(), "notes.md").expect("deleted");
    disk.apply(&[w]);
    assert_eq!(fs_list(&disk.table()).len(), 0);
    assert!(fs.fs_delete(&disk.table(), "notes.md").is_none());
}

#[test]
fn create_refuses_long_name() {
    let (disk, _fs) = formatted();
    let long = "x".repeat(48);
    assert!(fs_create(&disk.table(), &long, 1).is_none());
    let ok = "y".repeat(47);
    assert!(fs_create(&disk.table(), &ok, 1).is_some());
}

#[test]
fn inode_round_trip() {
    let mut inode = Inode::new();
    inode.set_name("kernel.log");
    assert!(inode.add_extent(300, 3));
    let bytes = inode_to_bytes(&inode);
    assert_eq!(bytes.len(), 128);
    let back = bytes_to_inode(&bytes, 0);
    assert_eq!(back.get_name(), "kernel.log");
    assert_eq!(back.get_physical_block(0), Some(300));
    assert_eq!(back.get_physical_block(2), Some(302));
    assert_eq!(back.get_physical_block(3), None);
}

#[test]
fn superblock_round_trip() {
    let sb = Superblock {
        magic: FS_MAGIC,
        version: 3,
        total_blocks: 8192,
        free_blocks: 8000,
        total_inodes: 256,
        free_inodes: 250,
        first_data_block: 128,
        block_size: 512,
        dirty: 1,
    };
    let bytes = superblock_to_bytes(&sb);
    assert_eq!(bytes.len(), 512);
    let back = bytes_to_superblock(&bytes);
    assert_eq!(back.free_blocks, 8000);
    assert_eq!(back.free_inodes, 250);
    assert_eq!(back.dirty, 1);
    assert_eq!(&bytes[0..4], &FS_MAGIC.to_le_bytes());
}

#[test]
fn allocate_and_free_block() {
    let mut fs = PsychicFs::new();
    let free_before = fs.count_free_blocks();
    let b = fs.allocate_block().expect("space left");
    assert!(b as u64 >= DATA_BLOCKS_START);
    assert!(fs.is_block_allocated(b));
    assert_eq!(fs.count_free_blocks(), free_before - 1);
    fs.free_block(b);
    assert!(!fs.is_block_allocated(b));
    assert_eq!(fs.count_free_blocks(), free_before);
}

#[test]
fn block_cache_write_then_read() {
    let mut fs = PsychicFs::new();
    assert!(fs.cached_read(200, 1).is_none());
    let data = vec![0xABu8; 512];
    assert!(fs.cached_write(200, &data, 2).is_none());
    assert_eq!(fs.cached_read(200, 3), Some(data));
}

#[test]
fn stored_name_reads_back() {
    let mut inode = Inode::new();
    inode.set_name("héllo wörld");
    assert_eq!(inode.get_name(), "héllo wörld");
    let long = "n".repeat(60);
    inode.set_name(&long);
    assert_eq!(inode.get_name(), "n".repeat(47));
}

#[test]
fn rewrite_reuses_released_blocks() {
    let (mut disk, mut fs) = formatted();
    let (ok, w1) = fs.fs_write(&disk.table(), "f", b"first version", 1);
    assert!(ok);
    disk.apply(&w1);
    let (ok, w2) = fs.fs_write(&disk.table(), "f", b"second", 2);
    assert!(ok);
    assert_eq!(w1.len(), 2);
    assert_eq!(w2.len(), 2);
    assert_eq!(w1[0].0, w2[0].0);
    let (ok, w3) = fs.fs_write(&disk.table(), "g", b"other", 3);
    assert!(ok);
    assert_ne!(w3[0].0, w2[0].0);
}

#[test]
fn fresh_bitmap_has_every_block_free() {
    let fs = PsychicFs::new();
    assert_eq!(fs.count_free_blocks(), 8064);
}

#[test]
fn two_files_keep_their_contents() {
    let (mut disk, mut fs) = formatted();
    let (ok, w) = fs.fs_write(&disk.table(), "a", &vec![1u8; 1500], 1);
    assert!(ok);
    disk.apply(&w);
    let (ok, w) = fs.fs_write(&disk.table(), "b", &vec![2u8; 700], 2);
    assert!(ok);
    disk.apply(&w);
    assert_eq!(disk.read_file("a"), Some(vec![1u8; 1500]));
    assert_eq!(disk.read_file("b"), Some(vec![2u8; 700]));
}
