//! Process identifiers, process states and the table of file descriptors.

use vstd::prelude::*;

verus! {

/// The number of descriptors a table holds.
pub const FD_TABLE_SIZE: usize = 256;

/// A unique identifier of a process.
#[derive(Debug, Clone, Copy, PartialEq, Eq, Structural)]
pub struct ProcessId(pub u32);

/// The state of a process.
#[derive(Debug, Clone, Copy, PartialEq, Eq, Structural)]
pub enum ProcessState {
    /// The process is running.
    Running,
    /// The process has exited.
    Exited,
}

/// The state that a code stands for: 2 for `Exited`, `Running` for any
/// other code.
pub open spec fn state_of_code(code: u8) -> ProcessState {
    if code == 2 {
        ProcessState::Exited
    } else {
        ProcessState::Running
    }
}

impl ProcessState {
    /// The code of this state: 1 for `Running`, 2 for `Exited`.
    pub fn code(self) -> (r: u8)
        ensures
            r == (match self {
                ProcessState::Running => 1u8,
                ProcessState::Exited => 2u8,
            }),
            state_of_code(r) == self,
    {
        match self {
            ProcessState::Running => 1,
            ProcessState::Exited => 2,
        }
    }
}

impl From<u8> for ProcessState {
    fn from(state: u8) -> (r: Self) {
        match state {
            1 => ProcessState::Running,
            2 => ProcessState::Exited,
            _ => ProcessState::Running,
        }
    }
}

impl vstd::std_specs::convert::FromSpecImpl<u8> for ProcessState {
    open spec fn obeys_from_spec() -> bool {
        true
    }

    open spec fn from_spec(state: u8) -> Self {
        state_of_code(state)
    }
}

/// What a thread of control carries about its process.
#[derive(Clone, Copy)]
pub struct ProcessTaskExt {
    /// The process that owns the thread.
    pub process_id: ProcessId,
}

/// Why a call on the descriptor table failed.
#[derive(Clone, Copy, Debug, PartialEq, Eq, Structural)]
pub enum FdError {
    /// The table has no free descriptor.
    NoMemory,
    /// The descriptor lies outside the table.
    BadAddress,
}

/// The table of file descriptors of a process.
pub struct FdTable {
    entries: [Option<usize>; 256],
}

/// The position of the first free entry, or the length where there is none.
pub open spec fn first_free(entries: Seq<Option<usize>>) -> int
    decreases entries.len(),
{
    if entries.len() == 0 {
        0
    } else if entries[0] is None {
        0
    } else {
        1 + first_free(entries.drop_first())
    }
}

/// No entry before `i` is free, and the entry at `i` is, if `i` is one.
proof fn lemma_first_free(entries: Seq<Option<usize>>, i: int)
    requires
        0 <= i <= entries.len(),
        forall|j: int| 0 <= j < i ==> entries[j] is Some,
        i < entries.len() ==> entries[i] is None,
    ensures
        first_free(entries) == i,
    decreases i,
{
    if i > 0 {
        let rest = entries.drop_first();
        assert forall|j: int| 0 <= j < i - 1 implies rest[j] is Some by {
            assert(rest[j] == entries[j + 1]);
        }
        lemma_first_free(rest, i - 1);
    }
}

impl View for FdTable {
    type V = Seq<Option<usize>>;

    closed spec fn view(&self) -> Seq<Option<usize>> {
        self.entries@
    }
}

impl FdTable {
    /// A table of 256 free descriptors.
    pub fn new() -> (r: Self)
        ensures
            r@.len() == FD_TABLE_SIZE,
            forall|i: int| 0 <= i < FD_TABLE_SIZE ==> #[trigger] r@[i] is None,
    {
        FdTable { entries: [None; 256] }
    }

    /// Binds the lowest free descriptor to `file_id` and returns it.
    ///
    /// Fails with `NoMemory`, and changes nothing, where no descriptor is
    /// free.
    pub fn alloc_fd(&mut self, file_id: usize) -> (r: Result<usize, FdError>)
        ensures
            old(self)@.len() == FD_TABLE_SIZE,
            final(self)@.len() == FD_TABLE_SIZE,
            first_free(old(self)@) < FD_TABLE_SIZE ==> r == Ok::<usize, FdError>(
                first_free(old(self)@) as usize,
            ) && final(self)@ == old(self)@.update(first_free(old(self)@), Some(file_id)),
            first_free(old(self)@) >= FD_TABLE_SIZE ==> r == Err::<usize, FdError>(
                FdError::NoMemory,
            ) && final(self)@ == old(self)@,
    {
        let mut fd: usize = 0;
        while fd < 256
            invariant
                fd <= 256,
                *self == *old(self),
                self@.len() == 256,
                forall|j: int| 0 <= j < fd ==> self@[j] is Some,
            decreases 256 - fd,
        {
            if self.entries[fd].is_none() {
                proof {
                    lemma_first_free(self@, fd as int);
                }
                self.entries[fd] = Some(file_id);
                return Ok(fd);
            }
            fd = fd + 1;
        }
        proof {
            lemma_first_free(self@, 256);
        }
        Err(FdError::NoMemory)
    }

    /// Frees the descriptor `fd`.
    ///
    /// Fails with `BadAddress`, and changes nothing, where `fd` lies
    /// outside the table.
    pub fn free_fd(&mut self, fd: usize) -> (r: Result<(), FdError>)
        ensures
            old(self)@.len() == FD_TABLE_SIZE,
            final(self)@.len() == FD_TABLE_SIZE,
            fd < FD_TABLE_SIZE ==> r is Ok && final(self)@ == old(self)@.update(
                fd as int,
                None::<usize>,
            ),
            fd >= FD_TABLE_SIZE ==> r == Err::<(), FdError>(FdError::BadAddress) && final(self)@
                == old(self)@,
    {
        if fd < 256 {
            self.entries[fd] = None;
            Ok(())
        } else {
            Err(FdError::BadAddress)
        }
    }

    /// The file bound to `fd`, if the descriptor is in use.
    pub fn get(&self, fd: usize) -> (r: Option<usize>)
        ensures
            self@.len() == FD_TABLE_SIZE,
            r == (if fd < FD_TABLE_SIZE {
                self@[fd as int]
            } else {
                None
            }),
    {
        if fd < 256 {
            self.entries[fd]
        } else {
            None
        }
    }
}

} // verus!
