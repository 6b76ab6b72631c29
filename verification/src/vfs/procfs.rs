//! Files of fixed content and the splitting of paths into their first
//! component and the rest.

use vstd::prelude::*;
use crate::vfs::VfsError;
use crate::vfs::structs::{VfsNodeAttr, VfsNodeType, plain_attr};
use crate::text::{chars_of, string_of};
use crate::path::trim_start;

verus! {

/// A file of fixed content.
pub struct ProcFile {
    content: Vec<u8>,
}

impl View for ProcFile {
    type V = Seq<u8>;

    closed spec fn view(&self) -> Seq<u8> {
        self.content@
    }
}

/// The number of bytes a read of `len` bytes at `offset` finds in a file
/// of `size` bytes.
pub open spec fn readable(size: nat, offset: u64, len: nat) -> nat {
    if offset >= size {
        0
    } else if offset + len <= size {
        len
    } else {
        (size - offset) as nat
    }
}

impl ProcFile {
    /// A file that holds a copy of `content`.
    pub fn new(content: &[u8]) -> (r: Self)
        ensures
            r@ == content@,
    {
        ProcFile { content: vstd::slice::slice_to_vec(content) }
    }

    /// The attributes of the file: a regular file of the content's size.
    pub fn get_attr(&self) -> (r: Result<VfsNodeAttr, VfsError>)
        ensures
            r is Ok,
            r->Ok_0@ == plain_attr(
                VfsNodeType::File,
                r->Ok_0@.mode,
                self@.len() as u64,
                0,
            ),
            r->Ok_0@.mode@ == 0o666,
    {
        Ok(VfsNodeAttr::new_file(self.content.len() as u64, 0))
    }

    /// Copies the content from `offset` on into the start of `buf`, as far
    /// as both reach, and returns the number of bytes copied.
    pub fn read_at(&self, offset: u64, buf: &mut [u8]) -> (r: Result<usize, VfsError>)
        ensures
            r == Ok::<usize, VfsError>(
                readable(self@.len(), offset, old(buf)@.len()) as usize,
            ),
            final(buf)@.len() == old(buf)@.len(),
            forall|i: int|
                0 <= i < readable(self@.len(), offset, old(buf)@.len()) ==> #[trigger] final(buf)@[i]
                    == self@[offset + i],
            forall|i: int|
                readable(self@.len(), offset, old(buf)@.len()) <= i < old(buf)@.len()
                    ==> #[trigger] final(buf)@[i] == old(buf)@[i],
    {
        let size = self.content.len();
        if offset >= size as u64 {
            return Ok(0);
        }
        let start = offset as usize;
        let room = size - start;
        let count = if buf.len() <= room { buf.len() } else { room };
        let mut i: usize = 0;
        while i < count
            invariant
                size == self@.len(),
                start == offset,
                start + count <= size,
                count <= buf@.len(),
                buf@.len() == old(buf)@.len(),
                i <= count,
                forall|j: int| 0 <= j < i ==> #[trigger] buf@[j] == self@[start + j],
                forall|j: int| i <= j < buf@.len() ==> #[trigger] buf@[j] == old(buf)@[j],
            decreases count - i,
        {
            buf[i] = self.content[start + i];
            i = i + 1;
        }
        Ok(count)
    }
}

/// The position of the first slash in `s` from `i` on, or the length of `s`
/// where there is none.
pub open spec fn first_slash(s: Seq<char>, i: int) -> int
    decreases s.len() - i,
{
    if i < 0 || i >= s.len() {
        s.len() as int
    } else if s[i] == '/' {
        i
    } else {
        first_slash(s, i + 1)
    }
}

/// The first component of `path`, slashes at its start apart.
pub open spec fn head_of(path: Seq<char>) -> Seq<char> {
    let t = trim_start(path);
    t.take(first_slash(t, 0))
}

/// What follows the slash after the first component of `path`, if there is
/// such a slash.
pub open spec fn rest_of(path: Seq<char>) -> Option<Seq<char>> {
    let t = trim_start(path);
    let at = first_slash(t, 0);
    if at < t.len() {
        Some(t.skip(at + 1))
    } else {
        None
    }
}

/// Splits `path` into its first component and what follows it. Slashes at
/// the start are dropped; the rest starts after the first slash that
/// follows, and there is none where no slash follows.
pub fn split_path(path: &str) -> (r: (String, Option<String>))
    ensures
        r.0@ == head_of(path@),
        r.1 is Some <==> rest_of(path@) is Some,
        r.1 is Some ==> r.1->Some_0@ == rest_of(path@)->Some_0,
{
    let chars = chars_of(path);
    let n = chars.len();
    let mut b: usize = 0;
    assert(chars@.skip(0) =~= chars@);
    while b < n && chars[b] == '/'
        invariant
            n == chars@.len(),
            b <= n,
            trim_start(chars@.skip(b as int)) == trim_start(chars@),
        decreases n - b,
    {
        assert(chars@.skip(b as int).drop_first() =~= chars@.skip(b + 1));
        b = b + 1;
    }
    let ghost t = chars@.skip(b as int);
    assert(trim_start(chars@) == t);
    let mut e = b;
    while e < n && chars[e] != '/'
        invariant
            n == chars@.len(),
            b <= e <= n,
            t == chars@.skip(b as int),
            first_slash(t, e - b) == first_slash(t, 0),
        decreases n - e,
    {
        e = e + 1;
    }
    let mut head: Vec<char> = Vec::new();
    let mut i = b;
    while i < e
        invariant
            b <= i <= e <= n,
            n == chars@.len(),
            t == chars@.skip(b as int),
            head@ == t.take(i - b),
        decreases e - i,
    {
        head.push(chars[i]);
        i = i + 1;
        assert(head@ =~= t.take(i - b));
    }
    if e < n {
        let mut rest: Vec<char> = Vec::new();
        let mut k = e + 1;
        while k < n
            invariant
                e + 1 <= k <= n,
                b <= e,
                n == chars@.len(),
                t == chars@.skip(b as int),
                rest@ == t.subrange(e + 1 - b, k - b),
            decreases n - k,
        {
            rest.push(chars[k]);
            k = k + 1;
            assert(rest@ =~= t.subrange(e + 1 - b, k - b));
        }
        assert(rest@ =~= t.skip(e - b + 1));
        (string_of(&head), Some(string_of(&rest)))
    } else {
        (string_of(&head), None)
    }
}

} // verus!
