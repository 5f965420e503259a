use parch_kernel::error::ErrorNum;
use parch_kernel::fs::parch_fs::base::FileBytes;
use parch_kernel::fs::parch_fs::config::PFS_MAGIC;
use parch_kernel::fs::parch_fs::dir::PFSDirInner;
use parch_kernel::fs::parch_fs::files::{root_dir, PFSFile};
use parch_kernel::fs::parch_fs::store::ParchFSInner;
use parch_kernel::fs::parch_fs::types::{BlockNo, PFSDEntry, PFSINode, PFSPerm, PFSType, SuperBlock};
use parch_kernel::fs::types::{FileType, Permission};
use parch_kernel::fs::vfs::OpenMode;
use parch_kernel::mem::page_allocator::BitMapPageAllocator;
use parch_kernel::mem::phys_bitmap::BitMap;
use parch_kernel::mem::types::{PhysAddr, PhysPageNum};

const BASE: usize = 0x80000;

fn blank_inode() -> PFSINode {
    PFSINode {
        permission: PFSPerm { bits: 0 },
        f_type: PFSType::UNKNOWN,
        uid: 0,
        gid: 0,
        flags: 0,
        hard_link_count: 0,
        direct_blk_no: [BlockNo(0); 16],
        indirect_blk: BlockNo(0),
        indirect_blk2: BlockNo(0),
        f_size: 0,
        access_time: 0,
        change_time: 0,
        create_time: 0,
    }
}

/// A file system of 64 blocks and 64 inodes whose root directory is empty.
fn small_fs() -> ParchFSInner {
    let mm = BitMap::new(PhysAddr(0), 64, vec![0u64]);
    let fs = BitMap::new(PhysAddr(0), 64, vec![1u64]);
    let pages = BitMapPageAllocator::new(
        PhysPageNum(BASE),
        PhysAddr((BASE + 63) * 4096),
        PhysAddr(BASE * 4096),
        64 * 4096,
        mm,
        fs,
    );
    let inode_bitmap = BitMap::new(PhysAddr(0), 64, vec![0b11u64]);
    let mut inodes = vec![blank_inode(); 64];
    inodes[1] = PFSINode {
        permission: PFSPerm { bits: 0o755 },
        f_type: PFSType::DIR,
        hard_link_count: 2,
        ..blank_inode()
    };
    let blocks = vec![vec![0u8; 4096]; 64];
    let sb = SuperBlock {
        magic: PFS_MAGIC,
        base_kernel_satp: 0,
        inode_count: 64,
        block_count: 64,
        free_inode: 62,
        free_block: 63,
        last_access: 0,
        root_inode: 1,
    };
    ParchFSInner::new(sb, inode_bitmap, inodes, pages, blocks)
}

fn root(fs: &ParchFSInner) -> PFSDirInner {
    root_dir(fs, OpenMode { bits: OpenMode::SYS })
}

#[test]
fn make_file_then_open_write_and_read_back() {
    let mut fs = small_fs();
    let dir = root(&fs);
    let made = dir.make_file("hello".to_string(), Permission::default(), FileType::REGULAR, &mut fs, 7).unwrap();
    let mut file = match made {
        PFSFile::Regular(f) => f,
        _ => panic!("not a regular file"),
    };
    assert_eq!(file.base.inode_no.0, 2);
    assert_eq!(file.base.path.components, vec!["hello".to_string()]);
    assert_eq!(file.write(b"abc".to_vec(), &mut fs, 8), Ok(3));
    assert_eq!(file.cursor.0, 3);
    assert_eq!(file.seek(0, &fs), Ok(0));
    match file.read(10, &mut fs, 9).unwrap() {
        FileBytes::Data(v) => assert_eq!(v, b"abc".to_vec()),
        _ => panic!("mapped read"),
    }
    assert_eq!(file.cursor.0, 3);
    assert_eq!(file.seek(100, &fs), Ok(3));
}

#[test]
fn listing_holds_the_new_entry() {
    let mut fs = small_fs();
    let dir = root(&fs);
    dir.make_file("a".to_string(), Permission::default(), FileType::REGULAR, &mut fs, 1).unwrap();
    dir.make_file("b".to_string(), Permission::ro(), FileType::REGULAR, &mut fs, 1).unwrap();
    let list = dir.read_dirent(&mut fs, 2).unwrap();
    assert_eq!(list.len(), 2);
    assert_eq!(list[0].f_name, "a");
    assert_eq!(list[0].inode, 2);
    assert_eq!(list[0].permission.bits, 0o644);
    assert_eq!(list[0].f_type, FileType::REGULAR);
    assert_eq!(list[1].f_name, "b");
    assert_eq!(list[1].permission.bits, 0o444);
    let raw = dir.read_dirent_raw(&mut fs, 3).unwrap();
    assert_eq!(raw.len(), 2);
}

#[test]
fn make_file_refuses_existing_names_kinds_and_long_names() {
    let mut fs = small_fs();
    let dir = root(&fs);
    dir.make_file("x".to_string(), Permission::default(), FileType::REGULAR, &mut fs, 1).unwrap();
    assert!(matches!(
        dir.make_file("x".to_string(), Permission::default(), FileType::REGULAR, &mut fs, 1),
        Err(ErrorNum::EEXIST)
    ));
    assert!(matches!(
        dir.make_file("l".to_string(), Permission::default(), FileType::LINK, &mut fs, 1),
        Err(ErrorNum::EBADTYPE)
    ));
    let long = "n".repeat(119);
    assert!(matches!(
        dir.make_file(long, Permission::default(), FileType::REGULAR, &mut fs, 1),
        Err(ErrorNum::ENAMETOOLONG)
    ));
    let just_fits = "n".repeat(118);
    assert!(dir.make_file(just_fits, Permission::default(), FileType::REGULAR, &mut fs, 1).is_ok());
}

#[test]
fn new_directory_has_dot_entries() {
    let mut fs = small_fs();
    let dir = root(&fs);
    let sub = match dir.make_file("sub".to_string(), Permission::default(), FileType::DIR, &mut fs, 1).unwrap() {
        PFSFile::Dir(d) => d,
        _ => panic!("not a directory"),
    };
    let list = sub.read_dirent(&mut fs, 2).unwrap();
    assert_eq!(list.len(), 2);
    assert_eq!(list[0].f_name, ".");
    assert_eq!(list[0].inode, sub.base.inode_no.0);
    assert_eq!(list[1].f_name, "..");
    assert_eq!(list[1].inode, 1);
    assert_eq!(list[1].f_type, FileType::DIR);
}

#[test]
fn open_entry_finds_creates_or_refuses() {
    let mut fs = small_fs();
    let dir = root(&fs);
    assert!(matches!(dir.open_entry(&"nope".to_string(), OpenMode { bits: OpenMode::READ }, &mut fs, 1), Err(ErrorNum::ENOENT)));
    let made = dir.open_entry(&"new".to_string(), OpenMode { bits: OpenMode::READ | OpenMode::CREATE }, &mut fs, 1).unwrap();
    match made {
        PFSFile::Regular(f) => {
            assert_eq!(f.base.open_mode.bits, OpenMode::READ | OpenMode::CREATE);
            assert_eq!(f.cursor.0, 0);
        },
        _ => panic!("not a regular file"),
    }
    let again = dir.open_entry(&"new".to_string(), OpenMode { bits: OpenMode::READ }, &mut fs, 2).unwrap();
    assert!(matches!(again, PFSFile::Regular(_)));
}

#[test]
fn remove_file_clears_the_entry() {
    let mut fs = small_fs();
    let dir = root(&fs);
    dir.make_file("empty".to_string(), Permission::default(), FileType::REGULAR, &mut fs, 1).unwrap();
    dir.make_file("keep".to_string(), Permission::default(), FileType::REGULAR, &mut fs, 1).unwrap();
    assert!(matches!(dir.remove_file("nope".to_string(), &mut fs, 2), Err(ErrorNum::ENOENT)));
    assert_eq!(dir.remove_file("empty".to_string(), &mut fs, 2), Ok(()));
    let list = dir.read_dirent(&mut fs, 3).unwrap();
    assert_eq!(list.len(), 1);
    assert_eq!(list[0].f_name, "keep");
    assert!(matches!(dir.open_entry(&"empty".to_string(), OpenMode { bits: OpenMode::READ }, &mut fs, 4), Err(ErrorNum::ENOENT)));
    // the freed inode is taken again by the next file
    let again = dir.make_file("again".to_string(), Permission::default(), FileType::REGULAR, &mut fs, 5).unwrap();
    match again {
        PFSFile::Regular(f) => assert_eq!(f.base.inode_no.0, 2),
        _ => panic!("not a regular file"),
    }
}

#[test]
fn dentry_bytes_round_trip() {
    let mut name = [0u8; 118];
    name[0] = b'f';
    name[1] = b'\0';
    name[2] = b'g';
    let d = PFSDEntry { inode: parch_kernel::fs::parch_fs::types::INodeNo(5), permission: PFSPerm { bits: 0o600 }, f_type: PFSType::DIR, name_len: 3, f_name: name };
    let bytes = d.to_bytes();
    assert_eq!(bytes.len(), 128);
    assert_eq!(&bytes[0..10], &[5, 0, 0, 0, 0x80, 0x01, 0o20, 0, 3, 0]);
    let back = PFSDEntry::from_bytes(&bytes, 0).unwrap();
    assert_eq!(back.inode.0, 5);
    assert_eq!(back.name_len, 3);
    assert_eq!(back.name(), "fg");
    let mut bad = bytes.clone();
    bad[6] = 0xff;
    assert!(PFSDEntry::from_bytes(&bad, 0).is_none());
}

#[test]
fn empty_dentry_names_no_inode() {
    let e = PFSDEntry::empty();
    assert_eq!(e.inode.0, 0);
    assert_eq!(e.name_len, 0);
    assert_eq!(e.name(), "");
}
