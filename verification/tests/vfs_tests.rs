use unfound::vfs::structs::{
    VfsDirEntry, VfsNodeAttr, VfsNodeAttrX, VfsNodePerm, VfsNodeType, OWNER_EXEC, OWNER_READ,
};

#[test]
fn perm_defaults_and_letters() {
    assert_eq!(VfsNodePerm::default_file().bits(), 0o666);
    assert_eq!(VfsNodePerm::default_dir().bits(), 0o755);
    assert_eq!(VfsNodePerm::default_dir().mode(), 0o755);
    assert_eq!(&VfsNodePerm::default_dir().rwx_buf(), b"rwxr-xr-x");
    assert_eq!(&VfsNodePerm::default_file().rwx_buf(), b"rw-rw-rw-");
    assert_eq!(&VfsNodePerm::from_bits_truncate(0).rwx_buf(), b"---------");
    assert_eq!(VfsNodePerm::from_bits_truncate(0o7777).bits(), 0o777);
    let p = VfsNodePerm::from_bits_truncate(0o500);
    assert!(p.owner_readable());
    assert!(!p.owner_writable());
    assert!(p.owner_executable());
    assert!(p.contains(OWNER_READ | OWNER_EXEC));
}

#[test]
fn node_type_tests_and_letters() {
    assert!(VfsNodeType::File.is_file());
    assert!(!VfsNodeType::Dir.is_file());
    assert!(VfsNodeType::Dir.is_dir());
    assert!(VfsNodeType::SymLink.is_symlink());
    assert!(VfsNodeType::BlockDevice.is_block_device());
    assert!(VfsNodeType::CharDevice.is_char_device());
    assert!(VfsNodeType::Fifo.is_fifo());
    assert!(VfsNodeType::Socket.is_socket());
    let letters: Vec<char> = [
        VfsNodeType::Fifo,
        VfsNodeType::CharDevice,
        VfsNodeType::Dir,
        VfsNodeType::BlockDevice,
        VfsNodeType::File,
        VfsNodeType::SymLink,
        VfsNodeType::Socket,
    ]
    .iter()
    .map(|t| t.as_char())
    .collect();
    assert_eq!(letters, vec!['p', 'c', 'd', 'b', '-', 'l', 's']);
    assert_eq!(VfsNodeType::File.code(), 0o10);
    assert_eq!(VfsNodeType::Socket.code(), 0o14);
}

#[test]
fn node_attr_fields() {
    let a = VfsNodeAttr::new(
        1,
        VfsNodePerm::default_file(),
        VfsNodeType::CharDevice,
        2,
        3,
        4,
        5,
        6,
        7,
        8,
        9,
        10,
        11,
        12,
        13,
        14,
    );
    assert_eq!(a.dev(), 1);
    assert_eq!(a.perm().bits(), 0o666);
    assert_eq!(a.file_type(), VfsNodeType::CharDevice);
    assert_eq!((a.size(), a.blocks(), a.st_ino()), (2, 3, 4));
    assert_eq!((a.nlink(), a.uid(), a.gid(), a.nblk_lo()), (5, 6, 7, 8));
    assert_eq!((a.atime(), a.ctime(), a.mtime()), (9, 10, 11));
    assert_eq!((a.atime_nse(), a.mtime_nse(), a.ctime_nse()), (12, 13, 14));
    let mut f = VfsNodeAttr::new_file(100, 1);
    assert!(f.is_file() && !f.is_dir());
    assert_eq!((f.size(), f.blocks(), f.perm().bits()), (100, 1, 0o666));
    f.set_perm(VfsNodePerm::default_dir());
    assert_eq!(f.perm().bits(), 0o755);
    let d = VfsNodeAttr::new_dir(4096, 0);
    assert!(d.is_dir());
    assert_eq!(d.perm().bits(), 0o755);
}

#[test]
fn node_attr_x_fields() {
    let d = VfsNodeAttrX::default();
    assert_eq!((d.stx_blksize(), d.stx_nlink(), d.stx_perm().bits()), (4096, 1, 0o644));
    assert!(d.is_file());
    let f = VfsNodeAttrX::new_file(7, 8);
    assert_eq!((f.stx_mask(), f.stx_size(), f.stx_blocks()), (u32::MAX, 7, 8));
    let mut x = VfsNodeAttrX::new(
        1,
        2,
        3,
        4,
        5,
        6,
        VfsNodePerm::default_dir(),
        VfsNodeType::Dir,
        7,
        8,
        9,
        10,
        11,
        12,
        13,
        14,
        15,
        16,
        17,
        18,
        19,
        20,
        21,
        22,
    );
    assert_eq!((x.stx_mask(), x.stx_blksize(), x.stx_attributes()), (1, 2, 3));
    assert_eq!((x.stx_nlink(), x.stx_uid(), x.stx_gid()), (4, 5, 6));
    assert_eq!(x.file_type(), VfsNodeType::Dir);
    assert_eq!((x.stx_ino(), x.stx_size(), x.stx_blocks(), x.stx_attributes_mask()), (7, 8, 9, 10));
    assert_eq!((x.atime(), x.btime(), x.ctime(), x.mtime()), (11, 12, 13, 14));
    assert_eq!((x.atime_nse(), x.btime_nse(), x.ctime_nse(), x.mtime_nse()), (15, 16, 17, 18));
    assert_eq!((x.stx_rdev_major(), x.stx_rdev_minor()), (19, 20));
    assert_eq!((x.stx_dev_major(), x.stx_dev_minor()), (21, 22));
    assert!(x.is_dir());
    x.set_perm(VfsNodePerm::default_file());
    assert_eq!(x.stx_perm().bits(), 0o666);
    assert!(VfsNodeAttrX::new_dir(0, 0).is_dir());
}

#[test]
fn dir_entry_name() {
    let e = VfsDirEntry::new("hello", VfsNodeType::Dir);
    assert_eq!(e.entry_type(), VfsNodeType::Dir);
    assert_eq!(e.name_as_bytes(), b"hello");
    let d = VfsDirEntry::default();
    assert_eq!(d.entry_type(), VfsNodeType::File);
    assert_eq!(d.name_as_bytes(), b"");
    let long = "x".repeat(63);
    assert_eq!(VfsDirEntry::new(&long, VfsNodeType::File).name_as_bytes().len(), 63);
}
