//! Attributes of file system nodes: permissions, types, the two attribute
//! records and the directory entry.

use vstd::prelude::*;
use vstd::string::StringSliceAdditionalSpecFns;
use crate::seqs::{first_pos, lemma_first_pos, lemma_first_pos_at};

verus! {

/// Attributes of a file system.
#[derive(Debug, Clone, Copy)]
#[non_exhaustive]
pub struct FileSystemInfo {
    /// The type of the file system.
    pub ftype: u64,
    /// The optimal transfer block size.
    pub bsize: u64,
    /// Total data blocks.
    pub blocks: u64,
    /// Free blocks.
    pub bfree: u64,
    /// Free blocks for unprivileged users.
    pub bavail: u64,
    /// Total file nodes.
    pub files: u64,
    /// Free file nodes.
    pub ffree: u64,
    /// The file system's identifier.
    pub fsid: u64,
    /// The greatest length of a file name.
    pub namelen: u64,
}

/// Owner has read permission.
pub const OWNER_READ: u16 = 0o400;

/// Owner has write permission.
pub const OWNER_WRITE: u16 = 0o200;

/// Owner has execute permission.
pub const OWNER_EXEC: u16 = 0o100;

/// Group has read permission.
pub const GROUP_READ: u16 = 0o40;

/// Group has write permission.
pub const GROUP_WRITE: u16 = 0o20;

/// Group has execute permission.
pub const GROUP_EXEC: u16 = 0o10;

/// Others have read permission.
pub const OTHER_READ: u16 = 0o4;

/// Others have write permission.
pub const OTHER_WRITE: u16 = 0o2;

/// Others have execute permission.
pub const OTHER_EXEC: u16 = 0o1;

/// All nine permission bits.
pub const ALL_PERMISSIONS: u16 = 0o777;

/// The permission mode of a node: a set of the nine permission bits.
#[derive(Debug, Clone, Copy, PartialEq, Eq, Structural)]
pub struct VfsNodePerm {
    bits: u16,
}

/// The type of a node.
#[derive(Debug, Clone, Copy, PartialEq, Eq, Structural)]
pub enum VfsNodeType {
    /// FIFO (named pipe)
    Fifo,
    /// Character device
    CharDevice,
    /// Directory
    Dir,
    /// Block device
    BlockDevice,
    /// Regular file
    File,
    /// Symbolic link
    SymLink,
    /// Socket
    Socket,
}

/// The letter that stands for each bit of a mode in its nine-letter form.
pub open spec fn rwx_letter(i: int) -> u8 {
    if i % 3 == 0 {
        114
    } else if i % 3 == 1 {
        119
    } else {
        120
    }
}

/// The permission bit at place `i` of the nine-letter form, owner's read
/// permission first.
pub open spec fn rwx_bit(i: int) -> u16 {
    if i == 0 {
        0o400
    } else if i == 1 {
        0o200
    } else if i == 2 {
        0o100
    } else if i == 3 {
        0o40
    } else if i == 4 {
        0o20
    } else if i == 5 {
        0o10
    } else if i == 6 {
        0o4
    } else if i == 7 {
        0o2
    } else {
        0o1
    }
}

impl View for VfsNodePerm {
    type V = u16;

    closed spec fn view(&self) -> u16 {
        self.bits
    }
}

impl VfsNodePerm {
    /// The mode that holds the permission bits of `bits`; other bits are
    /// dropped.
    pub fn from_bits_truncate(bits: u16) -> (r: Self)
        ensures
            r@ == bits & 0o777,
    {
        VfsNodePerm { bits: bits & ALL_PERMISSIONS }
    }

    /// The bits of this mode.
    pub fn bits(&self) -> (r: u16)
        ensures
            r == self@,
    {
        self.bits
    }

    /// Whether this mode holds every bit of `flags`.
    pub fn contains(&self, flags: u16) -> (r: bool)
        ensures
            r == (self@ & flags == flags),
    {
        self.bits & flags == flags
    }

    /// The default permission of a file, `0o666`: everybody can read and
    /// write.
    pub fn default_file() -> (r: Self)
        ensures
            r@ == 0o666,
    {
        assert(0o666u16 & 0o777u16 == 0o666u16) by (bit_vector);
        Self::from_bits_truncate(0o666)
    }

    /// The default permission of a directory, `0o755`: the owner can read,
    /// write and execute, the others can read and execute.
    pub fn default_dir() -> (r: Self)
        ensures
            r@ == 0o755,
    {
        assert(0o755u16 & 0o777u16 == 0o755u16) by (bit_vector);
        Self::from_bits_truncate(0o755)
    }

    /// The permission bits as the low bits of an `st_mode`.
    pub fn mode(&self) -> (r: u32)
        ensures
            r == self@,
    {
        self.bits as u32
    }

    /// The nine-letter form of the mode: `rwxr-xr-x` for `0o755`.
    pub fn rwx_buf(&self) -> (r: [u8; 9])
        ensures
            forall|i: int|
                0 <= i < 9 ==> #[trigger] r[i] == (if self@ & rwx_bit(i) == rwx_bit(i) {
                    rwx_letter(i)
                } else {
                    45u8
                }),
    {
        let mut perm: [u8; 9] = [45u8; 9];
        if self.contains(OWNER_READ) {
            perm[0] = 114u8;
        }
        if self.contains(OWNER_WRITE) {
            perm[1] = 119u8;
        }
        if self.contains(OWNER_EXEC) {
            perm[2] = 120u8;
        }
        if self.contains(GROUP_READ) {
            perm[3] = 114u8;
        }
        if self.contains(GROUP_WRITE) {
            perm[4] = 119u8;
        }
        if self.contains(GROUP_EXEC) {
            perm[5] = 120u8;
        }
        if self.contains(OTHER_READ) {
            perm[6] = 114u8;
        }
        if self.contains(OTHER_WRITE) {
            perm[7] = 119u8;
        }
        if self.contains(OTHER_EXEC) {
            perm[8] = 120u8;
        }
        perm
    }

    /// Whether the owner has read permission.
    pub fn owner_readable(&self) -> (r: bool)
        ensures
            r == (self@ & 0o400 == 0o400),
    {
        self.contains(OWNER_READ)
    }

    /// Whether the owner has write permission.
    pub fn owner_writable(&self) -> (r: bool)
        ensures
            r == (self@ & 0o200 == 0o200),
    {
        self.contains(OWNER_WRITE)
    }

    /// Whether the owner has execute permission.
    pub fn owner_executable(&self) -> (r: bool)
        ensures
            r == (self@ & 0o100 == 0o100),
    {
        self.contains(OWNER_EXEC)
    }
}

impl VfsNodeType {
    /// Whether this is a regular file.
    pub fn is_file(self) -> (r: bool)
        ensures
            r == (self == VfsNodeType::File),
    {
        matches!(self, VfsNodeType::File)
    }

    /// Whether this is a directory.
    pub fn is_dir(self) -> (r: bool)
        ensures
            r == (self == VfsNodeType::Dir),
    {
        matches!(self, VfsNodeType::Dir)
    }

    /// Whether this is a symbolic link.
    pub fn is_symlink(self) -> (r: bool)
        ensures
            r == (self == VfsNodeType::SymLink),
    {
        matches!(self, VfsNodeType::SymLink)
    }

    /// Whether this is a block device.
    pub fn is_block_device(self) -> (r: bool)
        ensures
            r == (self == VfsNodeType::BlockDevice),
    {
        matches!(self, VfsNodeType::BlockDevice)
    }

    /// Whether this is a character device.
    pub fn is_char_device(self) -> (r: bool)
        ensures
            r == (self == VfsNodeType::CharDevice),
    {
        matches!(self, VfsNodeType::CharDevice)
    }

    /// Whether this is a FIFO.
    pub fn is_fifo(self) -> (r: bool)
        ensures
            r == (self == VfsNodeType::Fifo),
    {
        matches!(self, VfsNodeType::Fifo)
    }

    /// Whether this is a socket.
    pub fn is_socket(self) -> (r: bool)
        ensures
            r == (self == VfsNodeType::Socket),
    {
        matches!(self, VfsNodeType::Socket)
    }

    /// The letter that stands for the type in a listing: `d` for a
    /// directory, `-` for a regular file.
    pub fn as_char(self) -> (r: char)
        ensures
            r == (match self {
                VfsNodeType::Fifo => 'p',
                VfsNodeType::CharDevice => 'c',
                VfsNodeType::Dir => 'd',
                VfsNodeType::BlockDevice => 'b',
                VfsNodeType::File => '-',
                VfsNodeType::SymLink => 'l',
                VfsNodeType::Socket => 's',
            }),
    {
        match self {
            VfsNodeType::Fifo => 'p',
            VfsNodeType::CharDevice => 'c',
            VfsNodeType::Dir => 'd',
            VfsNodeType::BlockDevice => 'b',
            VfsNodeType::File => '-',
            VfsNodeType::SymLink => 'l',
            VfsNodeType::Socket => 's',
        }
    }

    /// The type's code in a mode: `0o10` for a regular file, `0o4` for a
    /// directory.
    pub fn code(self) -> (r: u8)
        ensures
            r == (match self {
                VfsNodeType::Fifo => 0o1u8,
                VfsNodeType::CharDevice => 0o2u8,
                VfsNodeType::Dir => 0o4u8,
                VfsNodeType::BlockDevice => 0o6u8,
                VfsNodeType::File => 0o10u8,
                VfsNodeType::SymLink => 0o12u8,
                VfsNodeType::Socket => 0o14u8,
            }),
    {
        match self {
            VfsNodeType::Fifo => 0o1,
            VfsNodeType::CharDevice => 0o2,
            VfsNodeType::Dir => 0o4,
            VfsNodeType::BlockDevice => 0o6,
            VfsNodeType::File => 0o10,
            VfsNodeType::SymLink => 0o12,
            VfsNodeType::Socket => 0o14,
        }
    }
}

/// The attributes of a node.
#[derive(Debug, Clone, Copy)]
pub struct VfsNodeAttr {
    dev: u64,
    mode: VfsNodePerm,
    ty: VfsNodeType,
    size: u64,
    blocks: u64,
    st_ino: u64,
    nlink: u32,
    uid: u32,
    gid: u32,
    nblk_lo: u32,
    atime: u32,
    ctime: u32,
    mtime: u32,
    atime_nse: u32,
    ctime_nse: u32,
    mtime_nse: u32,
}

/// The attributes of a node, field by field.
pub struct VfsNodeAttrView {
    pub dev: u64,
    pub mode: VfsNodePerm,
    pub ty: VfsNodeType,
    pub size: u64,
    pub blocks: u64,
    pub st_ino: u64,
    pub nlink: u32,
    pub uid: u32,
    pub gid: u32,
    pub nblk_lo: u32,
    pub atime: u32,
    pub ctime: u32,
    pub mtime: u32,
    pub atime_nse: u32,
    pub ctime_nse: u32,
    pub mtime_nse: u32,
}

impl View for VfsNodeAttr {
    type V = VfsNodeAttrView;

    closed spec fn view(&self) -> VfsNodeAttrView {
        VfsNodeAttrView {
            dev: self.dev,
            mode: self.mode,
            ty: self.ty,
            size: self.size,
            blocks: self.blocks,
            st_ino: self.st_ino,
            nlink: self.nlink,
            uid: self.uid,
            gid: self.gid,
            nblk_lo: self.nblk_lo,
            atime: self.atime,
            ctime: self.ctime,
            mtime: self.mtime,
            atime_nse: self.atime_nse,
            ctime_nse: self.ctime_nse,
            mtime_nse: self.mtime_nse,
        }
    }
}

/// The attributes of a node of type `ty` with permission `mode`, `size`
/// bytes and `blocks` blocks; every other field is zero.
pub open spec fn plain_attr(ty: VfsNodeType, mode: VfsNodePerm, size: u64, blocks: u64) -> VfsNodeAttrView {
    VfsNodeAttrView {
        dev: 0,
        mode,
        ty,
        size,
        blocks,
        st_ino: 0,
        nlink: 0,
        uid: 0,
        gid: 0,
        nblk_lo: 0,
        atime: 0,
        ctime: 0,
        mtime: 0,
        atime_nse: 0,
        ctime_nse: 0,
        mtime_nse: 0,
    }
}

impl VfsNodeAttr {
    /// A record with each field as given.
    pub fn new(
        dev: u64,
        mode: VfsNodePerm,
        ty: VfsNodeType,
        size: u64,
        blocks: u64,
        st_ino: u64,
        nlink: u32,
        uid: u32,
        gid: u32,
        nblk_lo: u32,
        atime: u32,
        ctime: u32,
        mtime: u32,
        atime_nsec: u32,
        mtime_nsec: u32,
        ctime_nsec: u32,
    ) -> (r: Self)
        ensures
            r@ == (VfsNodeAttrView {
                dev,
                mode,
                ty,
                size,
                blocks,
                st_ino,
                nlink,
                uid,
                gid,
                nblk_lo,
                atime,
                ctime,
                mtime,
                atime_nse: atime_nsec,
                ctime_nse: ctime_nsec,
                mtime_nse: mtime_nsec,
            }),
    {
        VfsNodeAttr {
            dev,
            mode,
            ty,
            size,
            blocks,
            st_ino,
            nlink,
            uid,
            gid,
            nblk_lo,
            atime,
            ctime,
            mtime,
            atime_nse: atime_nsec,
            ctime_nse: ctime_nsec,
            mtime_nse: mtime_nsec,
        }
    }

    /// The record of a file, with the default file permission; every other field is zero.
    pub fn new_file(size: u64, blocks: u64) -> (r: Self)
        ensures
            r@ == plain_attr(VfsNodeType::File, r@.mode, size, blocks),
            r@.mode@ == 0o666,
    {
        VfsNodeAttr {
            dev: 0,
            mode: VfsNodePerm::default_file(),
            ty: VfsNodeType::File,
            size,
            blocks,
            st_ino: 0,
            nlink: 0,
            uid: 0,
            gid: 0,
            nblk_lo: 0,
            atime: 0,
            ctime: 0,
            mtime: 0,
            atime_nse: 0,
            ctime_nse: 0,
            mtime_nse: 0,
        }
    }

    /// The record of a directory, with the default directory permission; every other field is zero.
    pub fn new_dir(size: u64, blocks: u64) -> (r: Self)
        ensures
            r@ == plain_attr(VfsNodeType::Dir, r@.mode, size, blocks),
            r@.mode@ == 0o755,
    {
        VfsNodeAttr {
            dev: 0,
            mode: VfsNodePerm::default_dir(),
            ty: VfsNodeType::Dir,
            size,
            blocks,
            st_ino: 0,
            nlink: 0,
            uid: 0,
            gid: 0,
            nblk_lo: 0,
            atime: 0,
            ctime: 0,
            mtime: 0,
            atime_nse: 0,
            ctime_nse: 0,
            mtime_nse: 0,
        }
    }

    /// The size of the node in bytes.
    pub fn size(&self) -> (r: u64)
        ensures
            r == self@.size,
    {
        self.size
    }

    /// The number of 512-byte blocks the node occupies.
    pub fn blocks(&self) -> (r: u64)
        ensures
            r == self@.blocks,
    {
        self.blocks
    }

    /// The permission of the node.
    pub fn perm(&self) -> (r: VfsNodePerm)
        ensures
            r == self@.mode,
    {
        self.mode
    }

    /// Sets the permission of the node.
    pub fn set_perm(&mut self, perm: VfsNodePerm)
        ensures
            final(self)@ == (VfsNodeAttrView { mode: perm, ..old(self)@ }),
    {
        self.mode = perm
    }

    /// The type of the node.
    pub fn file_type(&self) -> (r: VfsNodeType)
        ensures
            r == self@.ty,
    {
        self.ty
    }

    /// Whether the node is a file.
    pub fn is_file(&self) -> (r: bool)
        ensures
            r == (self@.ty == VfsNodeType::File),
    {
        self.ty.is_file()
    }

    /// Whether the node is a directory.
    pub fn is_dir(&self) -> (r: bool)
        ensures
            r == (self@.ty == VfsNodeType::Dir),
    {
        self.ty.is_dir()
    }

    /// The inode number.
    pub fn st_ino(&self) -> (r: u64)
        ensures
            r == self@.st_ino,
    {
        self.st_ino
    }

    /// The number of hard links.
    pub fn nlink(&self) -> (r: u32)
        ensures
            r == self@.nlink,
    {
        self.nlink
    }

    /// The owner's user id.
    pub fn uid(&self) -> (r: u32)
        ensures
            r == self@.uid,
    {
        self.uid
    }

    /// The owner's group id.
    pub fn gid(&self) -> (r: u32)
        ensures
            r == self@.gid,
    {
        self.gid
    }

    /// The low word of the block count.
    pub fn nblk_lo(&self) -> (r: u32)
        ensures
            r == self@.nblk_lo,
    {
        self.nblk_lo
    }

    /// The time of the last access, in seconds.
    pub fn atime(&self) -> (r: u32)
        ensures
            r == self@.atime,
    {
        self.atime
    }

    /// The time of the last modification, in seconds.
    pub fn mtime(&self) -> (r: u32)
        ensures
            r == self@.mtime,
    {
        self.mtime
    }

    /// The time of the last status change, in seconds.
    pub fn ctime(&self) -> (r: u32)
        ensures
            r == self@.ctime,
    {
        self.ctime
    }

    /// The nanoseconds of the last modification.
    pub fn mtime_nse(&self) -> (r: u32)
        ensures
            r == self@.mtime_nse,
    {
        self.mtime_nse
    }

    /// The nanoseconds of the last access.
    pub fn atime_nse(&self) -> (r: u32)
        ensures
            r == self@.atime_nse,
    {
        self.atime_nse
    }

    /// The nanoseconds of the last status change.
    pub fn ctime_nse(&self) -> (r: u32)
        ensures
            r == self@.ctime_nse,
    {
        self.ctime_nse
    }

    /// The device that holds the node.
    pub fn dev(&self) -> (r: u64)
        ensures
            r == self@.dev,
    {
        self.dev
    }
}

/// Mask bit: the type is wanted.
pub const STATX_TYPE: u32 = 0x0000_0001;

/// Mask bit: the mode is wanted.
pub const STATX_MODE: u32 = 0x0000_0002;

/// Mask bit: the link count is wanted.
pub const STATX_NLINK: u32 = 0x0000_0004;

/// Mask bit: the user id is wanted.
pub const STATX_UID: u32 = 0x0000_0008;

/// Mask bit: the group id is wanted.
pub const STATX_GID: u32 = 0x0000_0010;

/// Mask bit: the access time is wanted.
pub const STATX_ATIME: u32 = 0x0000_0020;

/// Mask bit: the modification time is wanted.
pub const STATX_MTIME: u32 = 0x0000_0040;

/// Mask bit: the status-change time is wanted.
pub const STATX_CTIME: u32 = 0x0000_0080;

/// Mask bit: the inode number is wanted.
pub const STATX_INO: u32 = 0x0000_0100;

/// Mask bit: the size is wanted.
pub const STATX_SIZE: u32 = 0x0000_0200;

/// Mask bit: the block count is wanted.
pub const STATX_BLOCKS: u32 = 0x0000_0400;

/// All the basic fields.
pub const STATX_BASIC_STATS: u32 = 0x0000_07ff;

/// Mask bit: the creation time is wanted.
pub const STATX_BTIME: u32 = 0x0000_0800;

/// All fields.
pub const STATX_ALL: u32 = 0x0000_0fff;

/// Reserved.
pub const STATX__RESERVED: u32 = 0x8000_0000;

/// The extended attributes of a node.
#[derive(Debug, Clone, Copy)]
pub struct VfsNodeAttrX {
    stx_mask: u32,
    stx_blksize: u32,
    stx_attributes: u64,
    stx_nlink: u32,
    stx_uid: u32,
    stx_gid: u32,
    stx_mode: VfsNodePerm,
    ty: VfsNodeType,
    stx_ino: u64,
    stx_size: u64,
    stx_blocks: u64,
    stx_attributes_mask: u64,
    atime: u32,
    btime: u32,
    ctime: u32,
    mtime: u32,
    atime_nse: u32,
    btime_nse: u32,
    ctime_nse: u32,
    mtime_nse: u32,
    stx_rdev_major: u32,
    stx_rdev_minor: u32,
    stx_dev_major: u32,
    stx_dev_minor: u32,
}

/// The extended attributes of a node, field by field.
pub struct VfsNodeAttrXView {
    pub stx_mask: u32,
    pub stx_blksize: u32,
    pub stx_attributes: u64,
    pub stx_nlink: u32,
    pub stx_uid: u32,
    pub stx_gid: u32,
    pub stx_mode: VfsNodePerm,
    pub ty: VfsNodeType,
    pub stx_ino: u64,
    pub stx_size: u64,
    pub stx_blocks: u64,
    pub stx_attributes_mask: u64,
    pub atime: u32,
    pub btime: u32,
    pub ctime: u32,
    pub mtime: u32,
    pub atime_nse: u32,
    pub btime_nse: u32,
    pub ctime_nse: u32,
    pub mtime_nse: u32,
    pub stx_rdev_major: u32,
    pub stx_rdev_minor: u32,
    pub stx_dev_major: u32,
    pub stx_dev_minor: u32,
}

impl View for VfsNodeAttrX {
    type V = VfsNodeAttrXView;

    closed spec fn view(&self) -> VfsNodeAttrXView {
        VfsNodeAttrXView {
            stx_mask: self.stx_mask,
            stx_blksize: self.stx_blksize,
            stx_attributes: self.stx_attributes,
            stx_nlink: self.stx_nlink,
            stx_uid: self.stx_uid,
            stx_gid: self.stx_gid,
            stx_mode: self.stx_mode,
            ty: self.ty,
            stx_ino: self.stx_ino,
            stx_size: self.stx_size,
            stx_blocks: self.stx_blocks,
            stx_attributes_mask: self.stx_attributes_mask,
            atime: self.atime,
            btime: self.btime,
            ctime: self.ctime,
            mtime: self.mtime,
            atime_nse: self.atime_nse,
            btime_nse: self.btime_nse,
            ctime_nse: self.ctime_nse,
            mtime_nse: self.mtime_nse,
            stx_rdev_major: self.stx_rdev_major,
            stx_rdev_minor: self.stx_rdev_minor,
            stx_dev_major: self.stx_dev_major,
            stx_dev_minor: self.stx_dev_minor,
        }
    }
}

impl Default for VfsNodeAttrX {
    /// The record of an empty file with one link, mode `0o644` and a block
    /// size of 4096; every other field is zero.
    fn default() -> (r: Self)
        ensures
            r@ == (VfsNodeAttrXView {
                stx_mask: 0,
                stx_blksize: 4096,
                stx_attributes: 0,
                stx_nlink: 1,
                stx_uid: 0,
                stx_gid: 0,
                stx_mode: r@.stx_mode,
                ty: VfsNodeType::File,
                stx_ino: 0,
                stx_size: 0,
                stx_blocks: 0,
                stx_attributes_mask: 0,
                atime: 0,
                btime: 0,
                ctime: 0,
                mtime: 0,
                atime_nse: 0,
                btime_nse: 0,
                ctime_nse: 0,
                mtime_nse: 0,
                stx_rdev_major: 0,
                stx_rdev_minor: 0,
                stx_dev_major: 0,
                stx_dev_minor: 0,
            }),
            r@.stx_mode@ == 0o644,
    {
        assert(0o644u16 & 0o777u16 == 0o644u16) by (bit_vector);
        VfsNodeAttrX {
            stx_mask: 0,
            stx_blksize: 4096,
            stx_attributes: 0,
            stx_nlink: 1,
            stx_uid: 0,
            stx_gid: 0,
            stx_mode: VfsNodePerm::from_bits_truncate(0o644),
            ty: VfsNodeType::File,
            stx_ino: 0,
            stx_size: 0,
            stx_blocks: 0,
            stx_attributes_mask: 0,
            atime: 0,
            btime: 0,
            ctime: 0,
            mtime: 0,
            atime_nse: 0,
            btime_nse: 0,
            ctime_nse: 0,
            mtime_nse: 0,
            stx_rdev_major: 0,
            stx_rdev_minor: 0,
            stx_dev_major: 0,
            stx_dev_minor: 0,
        }
    }
}

impl VfsNodeAttrX {
    /// A record with each field as given.
    pub fn new(
        stx_mask: u32,
        stx_blksize: u32,
        stx_attributes: u64,
        stx_nlink: u32,
        stx_uid: u32,
        stx_gid: u32,
        stx_mode: VfsNodePerm,
        ty: VfsNodeType,
        stx_ino: u64,
        stx_size: u64,
        stx_blocks: u64,
        stx_attributes_mask: u64,
        atime: u32,
        btime: u32,
        ctime: u32,
        mtime: u32,
        atime_nse: u32,
        btime_nse: u32,
        ctime_nse: u32,
        mtime_nse: u32,
        stx_rdev_major: u32,
        stx_rdev_minor: u32,
        stx_dev_major: u32,
        stx_dev_minor: u32,
    ) -> (r: Self)
        ensures
            r@ == (VfsNodeAttrXView {
                stx_mask,
                stx_blksize,
                stx_attributes,
                stx_nlink,
                stx_uid,
                stx_gid,
                stx_mode,
                ty,
                stx_ino,
                stx_size,
                stx_blocks,
                stx_attributes_mask,
                atime,
                btime,
                ctime,
                mtime,
                atime_nse,
                btime_nse,
                ctime_nse,
                mtime_nse,
                stx_rdev_major,
                stx_rdev_minor,
                stx_dev_major,
                stx_dev_minor,
            }),
    {
        VfsNodeAttrX {
            stx_mask,
            stx_blksize,
            stx_attributes,
            stx_nlink,
            stx_uid,
            stx_gid,
            stx_mode,
            ty,
            stx_ino,
            stx_size,
            stx_blocks,
            stx_attributes_mask,
            atime,
            btime,
            ctime,
            mtime,
            atime_nse,
            btime_nse,
            ctime_nse,
            mtime_nse,
            stx_rdev_major,
            stx_rdev_minor,
            stx_dev_major,
            stx_dev_minor,
        }
    }

    /// The record of a file, with the default file permission, with every mask bit set; every other field is zero.
    pub fn new_file(stx_size: u64, stx_blocks: u64) -> (r: Self)
        ensures
            r@ == (VfsNodeAttrXView {
                stx_mask: u32::MAX,
                stx_blksize: 0,
                stx_attributes: 0,
                stx_nlink: 0,
                stx_uid: 0,
                stx_gid: 0,
                stx_mode: r@.stx_mode,
                ty: VfsNodeType::File,
                stx_ino: 0,
                stx_size,
                stx_blocks,
                stx_attributes_mask: 0,
                atime: 0,
                btime: 0,
                ctime: 0,
                mtime: 0,
                atime_nse: 0,
                btime_nse: 0,
                ctime_nse: 0,
                mtime_nse: 0,
                stx_rdev_major: 0,
                stx_rdev_minor: 0,
                stx_dev_major: 0,
                stx_dev_minor: 0,
            }),
            r@.stx_mode@ == 0o666,
    {
        VfsNodeAttrX {
            stx_mask: u32::MAX,
            stx_blksize: 0,
            stx_attributes: 0,
            stx_nlink: 0,
            stx_uid: 0,
            stx_gid: 0,
            stx_mode: VfsNodePerm::default_file(),
            ty: VfsNodeType::File,
            stx_ino: 0,
            stx_size,
            stx_blocks,
            stx_attributes_mask: 0,
            atime: 0,
            btime: 0,
            ctime: 0,
            mtime: 0,
            atime_nse: 0,
            btime_nse: 0,
            ctime_nse: 0,
            mtime_nse: 0,
            stx_rdev_major: 0,
            stx_rdev_minor: 0,
            stx_dev_major: 0,
            stx_dev_minor: 0,
        }
    }

    /// The record of a directory, with the default directory permission, with every mask bit set; every other field is zero.
    pub fn new_dir(stx_size: u64, stx_blocks: u64) -> (r: Self)
        ensures
            r@ == (VfsNodeAttrXView {
                stx_mask: u32::MAX,
                stx_blksize: 0,
                stx_attributes: 0,
                stx_nlink: 0,
                stx_uid: 0,
                stx_gid: 0,
                stx_mode: r@.stx_mode,
                ty: VfsNodeType::Dir,
                stx_ino: 0,
                stx_size,
                stx_blocks,
                stx_attributes_mask: 0,
                atime: 0,
                btime: 0,
                ctime: 0,
                mtime: 0,
                atime_nse: 0,
                btime_nse: 0,
                ctime_nse: 0,
                mtime_nse: 0,
                stx_rdev_major: 0,
                stx_rdev_minor: 0,
                stx_dev_major: 0,
                stx_dev_minor: 0,
            }),
            r@.stx_mode@ == 0o755,
    {
        VfsNodeAttrX {
            stx_mask: u32::MAX,
            stx_blksize: 0,
            stx_attributes: 0,
            stx_nlink: 0,
            stx_uid: 0,
            stx_gid: 0,
            stx_mode: VfsNodePerm::default_dir(),
            ty: VfsNodeType::Dir,
            stx_ino: 0,
            stx_size,
            stx_blocks,
            stx_attributes_mask: 0,
            atime: 0,
            btime: 0,
            ctime: 0,
            mtime: 0,
            atime_nse: 0,
            btime_nse: 0,
            ctime_nse: 0,
            mtime_nse: 0,
            stx_rdev_major: 0,
            stx_rdev_minor: 0,
            stx_dev_major: 0,
            stx_dev_minor: 0,
        }
    }

    /// The mask of the fields that are filled in.
    pub fn stx_mask(&self) -> (r: u32)
        ensures
            r == self@.stx_mask,
    {
        self.stx_mask
    }

    /// The block size for I/O.
    pub fn stx_blksize(&self) -> (r: u32)
        ensures
            r == self@.stx_blksize,
    {
        self.stx_blksize
    }

    /// The extra attribute flags.
    pub fn stx_attributes(&self) -> (r: u64)
        ensures
            r == self@.stx_attributes,
    {
        self.stx_attributes
    }

    /// The number of hard links.
    pub fn stx_nlink(&self) -> (r: u32)
        ensures
            r == self@.stx_nlink,
    {
        self.stx_nlink
    }

    /// The owner's user id.
    pub fn stx_uid(&self) -> (r: u32)
        ensures
            r == self@.stx_uid,
    {
        self.stx_uid
    }

    /// The owner's group id.
    pub fn stx_gid(&self) -> (r: u32)
        ensures
            r == self@.stx_gid,
    {
        self.stx_gid
    }

    /// The permission of the node.
    pub fn stx_perm(&self) -> (r: VfsNodePerm)
        ensures
            r == self@.stx_mode,
    {
        self.stx_mode
    }

    /// The type of the node.
    pub fn file_type(&self) -> (r: VfsNodeType)
        ensures
            r == self@.ty,
    {
        self.ty
    }

    /// The inode number.
    pub fn stx_ino(&self) -> (r: u64)
        ensures
            r == self@.stx_ino,
    {
        self.stx_ino
    }

    /// The size in bytes.
    pub fn stx_size(&self) -> (r: u64)
        ensures
            r == self@.stx_size,
    {
        self.stx_size
    }

    /// The number of 512-byte blocks.
    pub fn stx_blocks(&self) -> (r: u64)
        ensures
            r == self@.stx_blocks,
    {
        self.stx_blocks
    }

    /// The mask of the attribute flags that are supported.
    pub fn stx_attributes_mask(&self) -> (r: u64)
        ensures
            r == self@.stx_attributes_mask,
    {
        self.stx_attributes_mask
    }

    /// The time of the last access, in seconds.
    pub fn atime(&self) -> (r: u32)
        ensures
            r == self@.atime,
    {
        self.atime
    }

    /// The time of creation, in seconds.
    pub fn btime(&self) -> (r: u32)
        ensures
            r == self@.btime,
    {
        self.btime
    }

    /// The time of the last status change, in seconds.
    pub fn ctime(&self) -> (r: u32)
        ensures
            r == self@.ctime,
    {
        self.ctime
    }

    /// The time of the last modification, in seconds.
    pub fn mtime(&self) -> (r: u32)
        ensures
            r == self@.mtime,
    {
        self.mtime
    }

    /// The nanoseconds of the last access.
    pub fn atime_nse(&self) -> (r: u32)
        ensures
            r == self@.atime_nse,
    {
        self.atime_nse
    }

    /// The nanoseconds of creation.
    pub fn btime_nse(&self) -> (r: u32)
        ensures
            r == self@.btime_nse,
    {
        self.btime_nse
    }

    /// The nanoseconds of the last status change.
    pub fn ctime_nse(&self) -> (r: u32)
        ensures
            r == self@.ctime_nse,
    {
        self.ctime_nse
    }

    /// The nanoseconds of the last modification.
    pub fn mtime_nse(&self) -> (r: u32)
        ensures
            r == self@.mtime_nse,
    {
        self.mtime_nse
    }

    /// The major id of the device the node stands for.
    pub fn stx_rdev_major(&self) -> (r: u32)
        ensures
            r == self@.stx_rdev_major,
    {
        self.stx_rdev_major
    }

    /// The minor id of the device the node stands for.
    pub fn stx_rdev_minor(&self) -> (r: u32)
        ensures
            r == self@.stx_rdev_minor,
    {
        self.stx_rdev_minor
    }

    /// The major id of the device that holds the node.
    pub fn stx_dev_major(&self) -> (r: u32)
        ensures
            r == self@.stx_dev_major,
    {
        self.stx_dev_major
    }

    /// The minor id of the device that holds the node.
    pub fn stx_dev_minor(&self) -> (r: u32)
        ensures
            r == self@.stx_dev_minor,
    {
        self.stx_dev_minor
    }

    /// Sets the permission of the node.
    pub fn set_perm(&mut self, mode: VfsNodePerm)
        ensures
            final(self)@ == (VfsNodeAttrXView { stx_mode: mode, ..old(self)@ }),
    {
        self.stx_mode = mode;
    }

    /// Whether the node is a file.
    pub fn is_file(&self) -> (r: bool)
        ensures
            r == (self@.ty == VfsNodeType::File),
    {
        self.ty.is_file()
    }

    /// Whether the node is a directory.
    pub fn is_dir(&self) -> (r: bool)
        ensures
            r == (self@.ty == VfsNodeType::Dir),
    {
        self.ty.is_dir()
    }
}

/// The number of bytes a directory entry has for its name.
pub const NAME_BYTES: usize = 63;

/// A directory entry: a type and a name of at most 63 bytes, padded with
/// zero bytes.
pub struct VfsDirEntry {
    d_type: VfsNodeType,
    d_name: [u8; 63],
}

/// A directory entry as a mathematical value.
pub struct VfsDirEntryView {
    pub d_type: VfsNodeType,
    /// The 63 bytes of the name field.
    pub d_name: Seq<u8>,
}

/// The 63 bytes of the name field for a name of at most 63 bytes.
pub open spec fn padded_name(name: Seq<u8>) -> Seq<u8> {
    Seq::new(63, |i: int| if i < name.len() { name[i] } else { 0u8 })
}

impl View for VfsDirEntry {
    type V = VfsDirEntryView;

    closed spec fn view(&self) -> VfsDirEntryView {
        VfsDirEntryView { d_type: self.d_type, d_name: self.d_name@ }
    }
}

impl VfsDirEntry {
    /// An entry of a regular file with an empty name.
    pub fn default() -> (r: Self)
        ensures
            r@ == (VfsDirEntryView {
                d_type: VfsNodeType::File,
                d_name: padded_name(Seq::<u8>::empty()),
            }),
    {
        let r = VfsDirEntry { d_type: VfsNodeType::File, d_name: [0u8; 63] };
        assert(r@.d_name =~= padded_name(Seq::<u8>::empty()));
        r
    }

    /// An entry with the given name and type. The name has at most 63 bytes.
    pub fn new(name: &str, ty: VfsNodeType) -> (r: Self)
        requires
            name.spec_bytes().len() <= 63,
        ensures
            r@ == (VfsDirEntryView { d_type: ty, d_name: padded_name(name.spec_bytes()) }),
    {
        let mut d_name: [u8; 63] = [0u8; 63];
        let bytes = name.as_bytes();
        let n = bytes.len();
        let mut i: usize = 0;
        while i < n
            invariant
                n == bytes@.len(),
                n <= 63,
                i <= n,
                forall|j: int| 0 <= j < i ==> #[trigger] d_name[j] == bytes@[j],
                forall|j: int| i <= j < 63 ==> #[trigger] d_name[j] == 0u8,
            decreases n - i,
        {
            d_name[i] = bytes[i];
            i = i + 1;
        }
        let r = VfsDirEntry { d_type: ty, d_name };
        assert(r@.d_name =~= padded_name(name.spec_bytes()));
        r
    }

    /// The type of the entry.
    pub fn entry_type(&self) -> (r: VfsNodeType)
        ensures
            r == self@.d_type,
    {
        self.d_type
    }

    /// The name of the entry: the bytes of the name field before its first
    /// zero byte.
    pub fn name_as_bytes(&self) -> (r: &[u8])
        ensures
            r@ == self@.d_name.take(first_pos(self@.d_name, 0u8)),
    {
        let mut len: usize = 0;
        proof {
            lemma_first_pos(self@.d_name, 0u8);
        }
        while len < 63 && self.d_name[len] != 0
            invariant
                len <= 63,
                self@.d_name.len() == 63,
                forall|j: int| 0 <= j < len ==> #[trigger] self@.d_name[j] != 0u8,
            decreases 63 - len,
        {
            len = len + 1;
        }
        proof {
            lemma_first_pos(self@.d_name, 0u8);
            if len < 63 {
                lemma_first_pos_at(self@.d_name, 0u8, len as int);
            } else {
                let f = first_pos(self@.d_name, 0u8);
                if f < 63 {
                    assert(self@.d_name[f] != 0u8);
                }
            }
        }
        let whole = self.d_name.as_slice();
        let r = vstd::slice::slice_subrange(whole, 0, len);
        assert(r@ =~= self@.d_name.take(len as int));
        r
    }
}

} // verus!
