//! What the kernel reads of a process's memory.

use crate::config::PAGE_SIZE;
use vstd::prelude::*;

verus! {

/// The flags of a page table entry that decide on user access.
#[derive(Clone, Copy, Debug, PartialEq, Eq, Structural)]
pub struct PTEFlags {
    /// The entry maps a page.
    pub valid: bool,
    /// The page may be read.
    pub readable: bool,
    /// The page may be written.
    pub writable: bool,
    /// The page may be used in user mode.
    pub user: bool,
}

/// The permissions of a mapped area.
#[derive(Clone, Copy, Debug, PartialEq, Eq, Structural)]
pub struct MapPermission {
    /// The area may be read.
    pub readable: bool,
    /// The area may be written.
    pub writable: bool,
    /// The area may be executed.
    pub executable: bool,
    /// The area may be used in user mode.
    pub user: bool,
}

/// A page of a process, with the flags of its page table entry.
#[derive(Debug)]
pub struct UserPage {
    /// The flags of the entry.
    pub flags: PTEFlags,
    /// The bytes of the page.
    pub bytes: Vec<u8>,
}

impl UserPage {
    /// The page is complete.
    pub open spec fn wf(&self) -> bool {
        self.bytes.len() == PAGE_SIZE
    }

    /// Whether user code may read or, where `need_write`, write the page.
    pub open spec fn grants(&self, need_write: bool) -> bool {
        &&& self.flags.valid
        &&& self.flags.user
        &&& if need_write {
            self.flags.writable
        } else {
            self.flags.readable
        }
    }
}

/// The flags and the bytes of a page, where there is one.
pub open spec fn contents(page: Option<UserPage>) -> Option<(PTEFlags, Seq<u8>)> {
    match page {
        Some(entry) => Some((entry.flags, entry.bytes@)),
        None => None,
    }
}

/// The place of an address in its page.
pub open spec fn page_offset(addr: usize) -> int {
    addr as int % PAGE_SIZE as int
}

/// An address space, by the token under which the hardware knows it.
#[derive(Clone, Copy, Debug, PartialEq, Eq, Structural)]
pub struct MemorySet {
    token: usize,
}

impl View for MemorySet {
    type V = usize;

    closed spec fn view(&self) -> usize {
        self.token
    }
}

impl MemorySet {
    /// The address space with the given token.
    pub fn new(token: usize) -> (m: MemorySet)
        ensures
            m@ == token,
    {
        MemorySet { token }
    }

    /// The token of the address space.
    pub fn token(&self) -> (token: usize)
        ensures
            token == self@,
    {
        self.token
    }
}

} // verus!
