//! Process management syscalls

use crate::config::PAGE_SIZE;
use crate::mm;
use crate::mm::{MapPermission, UserPage};
use crate::signed;
use vstd::prelude::*;

verus! {

/// current task gives up resources for other tasks
pub fn sys_yield<F: FnOnce()>(suspend: F) -> (status: isize)
    requires
        call_requires(suspend, ()),
    ensures
        call_ensures(suspend, (), ()),
        status == 0,
{
    suspend();
    0
}

/// change data segment size; returns the old end of the segment, as a signed number
pub fn sys_sbrk<F: FnOnce(i32) -> Option<usize>>(size: i32, change_program_brk: F) -> (status: isize)
    requires
        call_requires(change_program_brk, (size,)),
    ensures
        exists|brk: Option<usize>| #[trigger]
            call_ensures(change_program_brk, (size,), brk) && status == match brk {
                Some(old_brk) => signed::as_signed(old_brk),
                None => -1,
            },
{
    let brk = change_program_brk(size);
    if let Some(old_brk) = brk {
        proof {
            signed::lemma_signed_cast(old_brk);
        }
        old_brk as isize
    } else {
        -1
    }
}

/// Calls `f` on the byte at `addr`, where user code may use it, and stores the byte that it
/// returns. `page` is the page that holds the address, where there is one.
pub fn with_user_byte<R, F: FnOnce(u8) -> (u8, R)>(
    page: &mut Option<UserPage>,
    addr: usize,
    need_write: bool,
    f: F,
) -> (r: Option<R>)
    requires
        (*old(page)) is Some ==> (*old(page))->0.wf(),
        user_byte(*old(page), addr, need_write) is Some ==> call_requires(
            f,
            (user_byte(*old(page), addr, need_write)->0,),
        ),
    ensures
        r is Some <==> user_byte(*old(page), addr, need_write) is Some,
        r is None ==> mm::contents(*final(page)) == mm::contents(*old(page)),
        r matches Some(v) ==> exists|b: u8|
            #[trigger] stored(*old(page), *final(page), addr, b) && call_ensures(
                f,
                (user_byte(*old(page), addr, need_write)->0,),
                (b, v),
            ),
{
    let mut entry = match page.take() {
        Some(entry) => entry,
        None => {
            return None;
        },
    };
    let flags = entry.flags;
    let granted = flags.valid && flags.user && if need_write {
        flags.writable
    } else {
        flags.readable
    };
    if !granted {
        *page = Some(entry);
        return None;
    }
    let offset = addr % PAGE_SIZE;
    let ghost given = entry.bytes[offset as int];
    let (byte, v) = f(entry.bytes[offset]);
    assert(call_ensures(f, (given,), (byte, v)));
    entry.bytes[offset] = byte;
    *page = Some(entry);
    assert(stored(*old(page), *page, addr, byte));
    Some(v)
}

/// The byte at `addr` in `page`, where user code may read or, with `need_write`, write it.
pub open spec fn user_byte(page: Option<UserPage>, addr: usize, need_write: bool) -> Option<u8> {
    match page {
        Some(entry) if entry.grants(need_write) => Some(entry.bytes[mm::page_offset(addr)]),
        _ => None,
    }
}

/// `after` is `before` with `byte` at `addr`.
pub open spec fn stored(
    before: Option<UserPage>,
    after: Option<UserPage>,
    addr: usize,
    byte: u8,
) -> bool {
    mm::contents(after) == match mm::contents(before) {
        Some((flags, bytes)) => Some((flags, bytes.update(mm::page_offset(addr), byte))),
        None => None,
    }
}

/// Reads the byte at `addr`, where user code may read it.
pub fn user_read_u8(page: &mut Option<UserPage>, addr: usize) -> (byte: Option<u8>)
    requires
        (*old(page)) is Some ==> (*old(page))->0.wf(),
    ensures
        byte == user_byte(*old(page), addr, false),
        mm::contents(*final(page)) == mm::contents(*old(page)),
{
    let read = |byte: u8| -> (r: (u8, u8))
        ensures
            r == (byte, byte),
        { (byte, byte) };
    let r = with_user_byte(page, addr, false, read);
    proof {
        if r is Some {
            let before = (*old(page))->0.bytes@;
            let o = mm::page_offset(addr);
            assert(before.update(o, before[o]) =~= before);
        }
    }
    r
}

/// Writes `value` at `addr`, where user code may write there.
pub fn user_write_u8(page: &mut Option<UserPage>, addr: usize, value: u8) -> (done: Option<()>)
    requires
        (*old(page)) is Some ==> (*old(page))->0.wf(),
    ensures
        done is Some <==> user_byte(*old(page), addr, true) is Some,
        done is Some ==> stored(*old(page), *final(page), addr, value),
        done is None ==> mm::contents(*final(page)) == mm::contents(*old(page)),
{
    let write = |byte: u8| -> (r: (u8, ()))
        ensures
            r == (value, ()),
        { (value, ()) };
    with_user_byte(page, addr, true, write)
}

/// Reads (request 0) or writes (request 1) a byte of the current task at `id`, or tells how often
/// it made the syscall `id` (request 2). `page` is the page of the task that holds the address
/// `id`, where there is one.
pub fn sys_trace<F: FnOnce(usize) -> usize>(
    trace_request: usize,
    id: usize,
    data: usize,
    page: &mut Option<UserPage>,
    syscall_count: F,
) -> (status: isize)
    requires
        (*old(page)) is Some ==> (*old(page))->0.wf(),
        trace_request == 2 ==> call_requires(syscall_count, (id,)),
    ensures
        trace_request == 0 ==> status == match user_byte(*old(page), id, false) {
            Some(byte) => byte as int,
            None => -1,
        },
        trace_request == 1 && user_byte(*old(page), id, true) is Some ==> {
            &&& status == 0
            &&& stored(*old(page), *final(page), id, (data % 0x100) as u8)
        },
        trace_request == 1 && user_byte(*old(page), id, true) is None ==> status == -1,
        trace_request == 2 ==> exists|n: usize| #[trigger]
            call_ensures(syscall_count, (id,), n) && status == signed::as_signed(n),
        trace_request > 2 ==> status == -1,
        trace_request != 1 || user_byte(*old(page), id, true) is None ==> mm::contents(
            *final(page),
        ) == mm::contents(*old(page)),
{
    match trace_request {
        0 => match user_read_u8(page, id) {
            Some(value) => value as isize,
            None => -1,
        },
        1 => {
            assert(data as u8 == data % 0x100) by (bit_vector);
            if user_write_u8(page, id, data as u8).is_some() {
                0
            } else {
                -1
            }
        },
        2 => {
            let count = syscall_count(id);
            proof {
                signed::lemma_signed_cast(count);
            }
            count as isize
        },
        _ => -1,
    }
}

/// The permissions that the three low bits of `prot` ask for: read, write and execute, each in
/// user mode. Other bits, or none of these, ask for nothing that can be given.
pub open spec fn permission_of(prot: usize) -> Option<MapPermission> {
    if 0 < prot < 8 {
        Some(
            MapPermission {
                readable: prot % 2 == 1,
                writable: (prot / 2) % 2 == 1,
                executable: prot / 4 == 1,
                user: true,
            },
        )
    } else {
        None
    }
}

/// The permissions that `prot` asks for.
pub fn prot_to_permission(prot: usize) -> (perm: Option<MapPermission>)
    ensures
        perm == permission_of(prot),
{
    proof {
        lemma_prot_bits(prot);
    }
    if prot & !0x7 != 0 {
        return None;
    }
    if prot & 0x7 == 0 {
        return None;
    }
    Some(
        MapPermission {
            readable: prot & 0x1 != 0,
            writable: prot & 0x2 != 0,
            executable: prot & 0x4 != 0,
            user: true,
        },
    )
}

/// What the bits of `prot` say of its value.
proof fn lemma_prot_bits(prot: usize)
    ensures
        prot & !0x7 == 0 <==> prot < 8,
        prot < 8 ==> (prot & 0x7 == 0 <==> prot == 0),
        prot < 8 ==> (prot & 0x1 != 0 <==> prot % 2 == 1),
        prot < 8 ==> (prot & 0x2 != 0 <==> (prot / 2) % 2 == 1),
        prot < 8 ==> (prot & 0x4 != 0 <==> prot / 4 == 1),
{
    assert({
        &&& prot & !0x7 == 0 <==> prot < 8
        &&& prot < 8 ==> (prot & 0x7 == 0 <==> prot == 0)
        &&& prot < 8 ==> (prot & 0x1 != 0 <==> prot % 2 == 1)
        &&& prot < 8 ==> (prot & 0x2 != 0 <==> (prot / 2) % 2 == 1)
        &&& prot < 8 ==> (prot & 0x4 != 0 <==> prot / 4 == 1)
    }) by (bit_vector);
}

/// `len`, rounded up to whole pages.
pub open spec fn whole_pages(len: usize) -> int {
    ((len + PAGE_SIZE - 1) / PAGE_SIZE as int) * PAGE_SIZE
}

/// Rounds `len` up to whole pages, where the result can be counted.
pub fn align_len_up(len: usize) -> (aligned: Option<usize>)
    ensures
        aligned == if whole_pages(len) <= usize::MAX {
            Some(whole_pages(len) as usize)
        } else {
            None
        },
{
    if len == 0 {
        return Some(0);
    }
    let pages = ((len - 1) / PAGE_SIZE) + 1;
    assert(pages == (len + PAGE_SIZE - 1) / PAGE_SIZE as int);
    pages.checked_mul(PAGE_SIZE)
}

/// The status of a mapping operation.
fn mapping_status(result: Result<(), ()>) -> (status: isize)
    ensures
        status == status_of(result),
{
    if result.is_ok() {
        0
    } else {
        -1
    }
}

/// Zero for success, minus one for failure.
pub open spec fn status_of(result: Result<(), ()>) -> int {
    if result is Ok {
        0
    } else {
        -1
    }
}

/// Whether a request to map `len` bytes at `start` is refused for its arguments.
pub open spec fn mmap_refused(start: usize, len: usize, prot: usize) -> bool {
    ||| start % PAGE_SIZE != 0
    ||| permission_of(prot) is None
    ||| start + whole_pages(len) > usize::MAX
}

/// Maps `len` bytes, rounded up to whole pages, at `start` into the current address space.
/// `mmap` maps the pages from its first argument up to its second.
pub fn sys_mmap<F: FnOnce(usize, usize, MapPermission) -> Result<(), ()>>(
    start: usize,
    len: usize,
    prot: usize,
    mmap: F,
) -> (status: isize)
    requires
        !mmap_refused(start, len, prot) && len > 0 ==> call_requires(
            mmap,
            (start, (start + whole_pages(len)) as usize, permission_of(prot)->0),
        ),
    ensures
        mmap_refused(start, len, prot) ==> status == -1,
        !mmap_refused(start, len, prot) && len == 0 ==> status == 0,
        !mmap_refused(start, len, prot) && len > 0 ==> exists|result: Result<(), ()>| #[trigger]
            call_ensures(
                mmap,
                (start, (start + whole_pages(len)) as usize, permission_of(prot)->0),
                result,
            ) && status == status_of(result),
{
    if start % PAGE_SIZE != 0 {
        return -1;
    }
    let perm = match prot_to_permission(prot) {
        Some(perm) => perm,
        None => {
            return -1;
        },
    };
    let aligned_len = match align_len_up(len) {
        Some(aligned) => aligned,
        None => {
            return -1;
        },
    };
    if aligned_len == 0 {
        return 0;
    }
    let end = match start.checked_add(aligned_len) {
        Some(end) => end,
        None => {
            return -1;
        },
    };
    mapping_status(mmap(start, end, perm))
}

/// Whether a request to unmap `len` bytes at `start` is refused for its arguments.
pub open spec fn munmap_refused(start: usize, len: usize) -> bool {
    ||| start % PAGE_SIZE != 0
    ||| len % PAGE_SIZE != 0
    ||| start + len > usize::MAX
}

/// Unmaps `len` bytes at `start` from the current address space. `munmap` unmaps the pages from
/// its first argument up to its second.
pub fn sys_munmap<F: FnOnce(usize, usize) -> Result<(), ()>>(
    start: usize,
    len: usize,
    munmap: F,
) -> (status: isize)
    requires
        !munmap_refused(start, len) && len > 0 ==> call_requires(
            munmap,
            (start, (start + len) as usize),
        ),
    ensures
        munmap_refused(start, len) ==> status == -1,
        !munmap_refused(start, len) && len == 0 ==> status == 0,
        !munmap_refused(start, len) && len > 0 ==> exists|result: Result<(), ()>| #[trigger]
            call_ensures(munmap, (start, (start + len) as usize), result) && status == status_of(
                result,
            ),
{
    if start % PAGE_SIZE != 0 {
        return -1;
    }
    if len == 0 {
        return 0;
    }
    if len % PAGE_SIZE != 0 {
        return -1;
    }
    let end = match start.checked_add(len) {
        Some(end) => end,
        None => {
            return -1;
        },
    };
    mapping_status(munmap(start, end))
}

/// The pages that a request maps are whole, hold the bytes asked for and less than a page more,
/// and the same range can be unmapped again.
pub proof fn law_mapped_range(start: usize, len: usize, prot: usize)
    requires
        !mmap_refused(start, len, prot),
    ensures
        whole_pages(len) % PAGE_SIZE as int == 0,
        len <= whole_pages(len) < len + PAGE_SIZE,
        !munmap_refused(start, whole_pages(len) as usize),
{
}

/// A byte that was written can be read back where the page may be read, and no other byte of the
/// page changes.
pub proof fn law_read_after_write(
    before: Option<UserPage>,
    after: Option<UserPage>,
    addr: usize,
    value: u8,
    other: usize,
)
    requires
        before is Some,
        before->0.wf(),
        user_byte(before, addr, true) is Some,
        stored(before, after, addr, value),
    ensures
        before->0.flags.readable ==> user_byte(after, addr, false) == Some(value),
        mm::page_offset(other) != mm::page_offset(addr) ==> user_byte(after, other, false)
            == user_byte(before, other, false),
{
}

} // verus!
