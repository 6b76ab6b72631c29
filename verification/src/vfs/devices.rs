//! The null device and the zero device.

use vstd::prelude::*;
use crate::vfs::VfsError;
use crate::vfs::structs::{VfsNodeAttr, VfsNodeAttrView, VfsNodeAttrX, VfsNodeAttrXView, VfsNodePerm, VfsNodeType};
use crate::vfs::procfs::readable;
use crate::text::string_of;

verus! {

/// A device that holds nothing: reads find no byte and writes are dropped.
pub struct NullDev;

/// A device of zero bytes: reads find zeros and writes are dropped.
pub struct ZeroDev;

/// The attributes of a character device on device `dev`, with the default
/// file permission and every other field zero.
pub open spec fn char_device_attr(dev: u64, mode: VfsNodePerm) -> VfsNodeAttrView {
    VfsNodeAttrView {
        dev,
        mode,
        ty: VfsNodeType::CharDevice,
        size: 0,
        blocks: 0,
        st_ino: 0,
        nlink: 0,
        uid: 0,
        gid: 0,
        nblk_lo: 0,
        atime: 0,
        ctime: 0,
        mtime: 0,
        atime_nse: 0,
        ctime_nse: 0,
        mtime_nse: 0,
    }
}

/// The extended attributes of a character device, with the default file
/// permission and every other field zero.
pub open spec fn char_device_attr_x(mode: VfsNodePerm) -> VfsNodeAttrXView {
    VfsNodeAttrXView {
        stx_mask: 0,
        stx_blksize: 0,
        stx_attributes: 0,
        stx_nlink: 0,
        stx_uid: 0,
        stx_gid: 0,
        stx_mode: mode,
        ty: VfsNodeType::CharDevice,
        stx_ino: 0,
        stx_size: 0,
        stx_blocks: 0,
        stx_attributes_mask: 0,
        atime: 0,
        btime: 0,
        ctime: 0,
        mtime: 0,
        atime_nse: 0,
        btime_nse: 0,
        ctime_nse: 0,
        mtime_nse: 0,
        stx_rdev_major: 0,
        stx_rdev_minor: 0,
        stx_dev_major: 0,
        stx_dev_minor: 0,
    }
}

fn device_attr(dev: u64) -> (r: VfsNodeAttr)
    ensures
        r@ == char_device_attr(dev, r@.mode),
        r@.mode@ == 0o666,
{
    VfsNodeAttr::new(
        dev,
        VfsNodePerm::default_file(),
        VfsNodeType::CharDevice,
        0,
        0,
        0,
        0,
        0,
        0,
        0,
        0,
        0,
        0,
        0,
        0,
        0,
    )
}

fn device_attr_x() -> (r: VfsNodeAttrX)
    ensures
        r@ == char_device_attr_x(r@.stx_mode),
        r@.stx_mode@ == 0o666,
{
    VfsNodeAttrX::new(
        0,
        0,
        0,
        0,
        0,
        0,
        VfsNodePerm::default_file(),
        VfsNodeType::CharDevice,
        0,
        0,
        0,
        0,
        0,
        0,
        0,
        0,
        0,
        0,
        0,
        0,
        0,
        0,
        0,
        0,
    )
}

impl NullDev {
    /// The attributes of the null device: a character device on device 1.
    pub fn get_attr(&self) -> (r: Result<VfsNodeAttr, VfsError>)
        ensures
            r is Ok,
            r->Ok_0@ == char_device_attr(1, r->Ok_0@.mode),
            r->Ok_0@.mode@ == 0o666,
    {
        Ok(device_attr(1))
    }

    /// The extended attributes of the null device.
    pub fn get_attr_x(&self) -> (r: Result<VfsNodeAttrX, VfsError>)
        ensures
            r is Ok,
            r->Ok_0@ == char_device_attr_x(r->Ok_0@.stx_mode),
            r->Ok_0@.stx_mode@ == 0o666,
    {
        Ok(device_attr_x())
    }

    /// Reads nothing.
    pub fn read_at(&self, _offset: u64, buf: &mut [u8]) -> (r: Result<usize, VfsError>)
        ensures
            r == Ok::<usize, VfsError>(0),
            final(buf)@ == old(buf)@,
    {
        Ok(0)
    }

    /// Drops what is written and reports it as written.
    pub fn write_at(&self, _offset: u64, buf: &[u8]) -> (r: Result<usize, VfsError>)
        ensures
            r == Ok::<usize, VfsError>(buf@.len() as usize),
    {
        Ok(buf.len())
    }

    /// Does nothing.
    pub fn truncate(&self, _size: u64) -> (r: Result<(), VfsError>)
        ensures
            r is Ok,
    {
        Ok(())
    }
}

impl ZeroDev {
    /// The attributes of the zero device: a character device on device 0.
    pub fn get_attr(&self) -> (r: Result<VfsNodeAttr, VfsError>)
        ensures
            r is Ok,
            r->Ok_0@ == char_device_attr(0, r->Ok_0@.mode),
            r->Ok_0@.mode@ == 0o666,
    {
        Ok(device_attr(0))
    }

    /// The extended attributes of the zero device.
    pub fn get_attr_x(&self) -> (r: Result<VfsNodeAttrX, VfsError>)
        ensures
            r is Ok,
            r->Ok_0@ == char_device_attr_x(r->Ok_0@.stx_mode),
            r->Ok_0@.stx_mode@ == 0o666,
    {
        Ok(device_attr_x())
    }

    /// Fills `buf` with zero bytes.
    pub fn read_at(&self, _offset: u64, buf: &mut [u8]) -> (r: Result<usize, VfsError>)
        ensures
            r == Ok::<usize, VfsError>(old(buf)@.len() as usize),
            final(buf)@ == Seq::new(old(buf)@.len(), |i: int| 0u8),
    {
        let n = buf.len();
        let mut i: usize = 0;
        while i < n
            invariant
                n == buf@.len(),
                n == old(buf)@.len(),
                i <= n,
                forall|j: int| 0 <= j < i ==> #[trigger] buf@[j] == 0u8,
            decreases n - i,
        {
            buf[i] = 0;
            i = i + 1;
        }
        assert(buf@ =~= Seq::new(old(buf)@.len(), |i: int| 0u8));
        Ok(n)
    }

    /// Drops what is written and reports it as written.
    pub fn write_at(&self, _offset: u64, buf: &[u8]) -> (r: Result<usize, VfsError>)
        ensures
            r == Ok::<usize, VfsError>(buf@.len() as usize),
    {
        Ok(buf.len())
    }

    /// Does nothing.
    pub fn truncate(&self, _size: u64) -> (r: Result<(), VfsError>)
        ensures
            r is Ok,
    {
        Ok(())
    }
}

/// A character device that keeps what is written to it in memory.
pub struct CharDeviceNode {
    name: &'static str,
    buffer: Vec<u8>,
}

impl View for CharDeviceNode {
    type V = Seq<u8>;

    closed spec fn view(&self) -> Seq<u8> {
        self.buffer@
    }
}

/// The content after `data` was written at `offset`: the content grows
/// with zero bytes as far as the write reaches, and the bytes from `offset`
/// on are those of `data`.
pub open spec fn written(content: Seq<u8>, offset: int, data: Seq<u8>) -> Seq<u8> {
    let len = if content.len() >= offset + data.len() {
        content.len() as int
    } else {
        offset + data.len()
    };
    Seq::new(
        len as nat,
        |i: int|
            if offset <= i < offset + data.len() {
                data[i - offset]
            } else if i < content.len() {
                content[i]
            } else {
                0u8
            },
    )
}

impl CharDeviceNode {
    /// An empty device called `name`.
    pub fn new(name: &'static str) -> (r: Self)
        ensures
            r@ == Seq::<u8>::empty(),
            r.spec_name() == name@,
    {
        CharDeviceNode { name, buffer: Vec::new() }
    }

    /// The name of the device as a mathematical value.
    pub closed spec fn spec_name(&self) -> Seq<char> {
        self.name@
    }

    /// The name of the device.
    pub fn name(&self) -> (r: &'static str)
        ensures
            r@ == self.spec_name(),
    {
        self.name
    }

    /// The attributes of the device: a character device whose size is the
    /// number of bytes it holds.
    pub fn get_attr(&self) -> (r: Result<VfsNodeAttr, VfsError>)
        ensures
            r is Ok,
            r->Ok_0@ == (VfsNodeAttrView {
                size: self@.len() as u64,
                ..char_device_attr(0, r->Ok_0@.mode)
            }),
            r->Ok_0@.mode@ == 0o666,
    {
        Ok(
            VfsNodeAttr::new(
                0,
                VfsNodePerm::default_file(),
                VfsNodeType::CharDevice,
                self.buffer.len() as u64,
                0,
                0,
                0,
                0,
                0,
                0,
                0,
                0,
                0,
                0,
                0,
                0,
            ),
        )
    }

    /// Copies the content from `offset` on into the start of `buf`, as far
    /// as both reach, and returns the number of bytes copied.
    pub fn read_at(&self, offset: usize, buf: &mut [u8]) -> (r: Result<usize, VfsError>)
        ensures
            r == Ok::<usize, VfsError>(
                readable(self@.len(), offset as u64, old(buf)@.len()) as usize,
            ),
            final(buf)@.len() == old(buf)@.len(),
            forall|i: int|
                0 <= i < readable(self@.len(), offset as u64, old(buf)@.len())
                    ==> #[trigger] final(buf)@[i] == self@[offset + i],
            forall|i: int|
                readable(self@.len(), offset as u64, old(buf)@.len()) <= i < old(buf)@.len()
                    ==> #[trigger] final(buf)@[i] == old(buf)@[i],
    {
        let size = self.buffer.len();
        if offset >= size {
            return Ok(0);
        }
        let room = size - offset;
        let count = if buf.len() <= room { buf.len() } else { room };
        let mut i: usize = 0;
        while i < count
            invariant
                size == self@.len(),
                offset + count <= size,
                count <= buf@.len(),
                buf@.len() == old(buf)@.len(),
                i <= count,
                forall|j: int| 0 <= j < i ==> #[trigger] buf@[j] == self@[offset + j],
                forall|j: int| i <= j < buf@.len() ==> #[trigger] buf@[j] == old(buf)@[j],
            decreases count - i,
        {
            buf[i] = self.buffer[offset + i];
            i = i + 1;
        }
        Ok(count)
    }

    /// Writes `buf` at `offset`, growing the content with zero bytes as far
    /// as the write reaches.
    ///
    /// Fails with `InvalidInput`, and changes nothing, where the write
    /// would reach past the greatest offset.
    pub fn write_at(&mut self, offset: usize, buf: &[u8]) -> (r: Result<usize, VfsError>)
        ensures
            offset + buf@.len() <= usize::MAX ==> r == Ok::<usize, VfsError>(buf@.len() as usize)
                && final(self)@ == written(old(self)@, offset as int, buf@),
            offset + buf@.len() > usize::MAX ==> r == Err::<usize, VfsError>(
                VfsError::InvalidInput,
            ) && final(self)@ == old(self)@,
            final(self).spec_name() == old(self).spec_name(),
    {
        if buf.len() > usize::MAX - offset {
            return Err(VfsError::InvalidInput);
        }
        let end = offset + buf.len();
        while self.buffer.len() < end
            invariant
                self.spec_name() == old(self).spec_name(),
                old(self)@.len() <= self@.len(),
                self@.len() <= end || self@.len() == old(self)@.len(),
                forall|j: int| 0 <= j < old(self)@.len() ==> #[trigger] self@[j] == old(self)@[j],
                forall|j: int| old(self)@.len() <= j < self@.len() ==> #[trigger] self@[j] == 0u8,
            decreases end - self.buffer.len(),
        {
            self.buffer.push(0);
        }
        let n = buf.len();
        let mut i: usize = 0;
        while i < n
            invariant
                self.spec_name() == old(self).spec_name(),
                n == buf@.len(),
                end == offset + n,
                i <= n,
                self@.len() >= end,
                self@.len() == (if old(self)@.len() >= end {
                    old(self)@.len() as int
                } else {
                    end as int
                }),
                forall|j: int|
                    0 <= j < self@.len() ==> #[trigger] self@[j] == (if offset <= j < offset + i {
                        buf@[j - offset]
                    } else if j < old(self)@.len() {
                        old(self)@[j]
                    } else {
                        0u8
                    }),
            decreases n - i,
        {
            self.buffer[offset + i] = buf[i];
            i = i + 1;
        }
        assert(self@ =~= written(old(self)@, offset as int, buf@));
        Ok(n)
    }
}

/// The letter of the `index`-th block device: `a` for 0, `z` for 25, and
/// `a` again for 26.
pub open spec fn device_letter(index: u8) -> char {
    ((97 + index % 26) as u8) as char
}

/// The name of the `index`-th block device: `vda`, `vdb`, and so on, again
/// from `vda` after `vdz`.
pub fn get_device_name(index: u8) -> (r: String)
    ensures
        r@ == seq!['v', 'd', device_letter(index)],
{
    let c = 97u8 + (index % 26);
    let mut name: Vec<char> = Vec::new();
    name.push('v');
    name.push('d');
    name.push(c as char);
    assert(name@ =~= seq!['v', 'd', device_letter(index)]);
    string_of(&name)
}

} // verus!
