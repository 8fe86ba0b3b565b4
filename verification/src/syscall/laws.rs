//! What the syscalls answer and do, in terms of addresses, bytes and pages.

use crate::mm;
use crate::mm::{MapPermission, UserPage};
use crate::syscall::process;
use crate::syscall::process::{
    align_len_up, prot_to_permission, sys_mmap, sys_munmap, sys_sbrk, sys_trace, sys_yield,
    user_read_u8, user_write_u8, with_user_byte,
};
use crate::syscall::time;
use crate::syscall::time::{sys_get_time, TimeVal};
use vstd::prelude::*;

verus! {

/// `k` is the distance of the address from the start of its page.
pub open spec fn byte_in_page(addr: usize, k: int) -> bool {
    0 <= k < 4096 && exists|start: int| start % 4096 == 0 && #[trigger] (start + k) == addr
}

/// User code may read the page.
pub open spec fn may_read(page: Option<UserPage>) -> bool {
    page is Some && page->0.flags.valid && page->0.flags.user && page->0.flags.readable
}

/// User code may write the page.
pub open spec fn may_write(page: Option<UserPage>) -> bool {
    page is Some && page->0.flags.valid && page->0.flags.user && page->0.flags.writable
}

/// The two pages hold the same bytes under the same flags.
pub open spec fn same_page(a: Option<UserPage>, b: Option<UserPage>) -> bool {
    &&& a is Some <==> b is Some
    &&& a is Some ==> a->0.flags == b->0.flags && a->0.bytes@ == b->0.bytes@
}

/// `b` is `a` but for the byte at `k`, which is `value`.
pub open spec fn same_page_but(
    a: Option<UserPage>,
    b: Option<UserPage>,
    k: int,
    value: u8,
) -> bool {
    &&& a is Some && b is Some
    &&& a->0.flags == b->0.flags
    &&& a->0.bytes@.len() == b->0.bytes@.len()
    &&& b->0.bytes@[k] == value
    &&& forall|i: int|
        0 <= i < a->0.bytes@.len() && i != k ==> #[trigger] b->0.bytes@[i] == a->0.bytes@[i]
}

/// The number that the bits of `n` stand for as a signed word.
pub open spec fn signed_word(n: usize) -> int {
    if n <= isize::MAX {
        n as int
    } else {
        n - usize::MAX - 1
    }
}

/// Zero for success, minus one for failure.
pub open spec fn status(done: Result<(), ()>) -> int {
    if done is Ok {
        0
    } else {
        -1
    }
}

/// `end` is the end of the fewest pages from `start` on that hold `len` bytes.
pub open spec fn ends_pages(start: usize, len: usize, end: int) -> bool {
    &&& (end - start) % 4096 == 0
    &&& start + len <= end < start + len + 4096
}

/// An address in a page has one distance from its start.
proof fn lemma_byte_in_page(addr: usize, k: int)
    requires
        byte_in_page(addr, k),
    ensures
        mm::page_offset(addr) == k,
{
    let start = choose|start: int| start % 4096 == 0 && #[trigger] (start + k) == addr;
    assert(addr as int % 4096 == k);
}

/// Every address has a distance from the start of its page, and it is the only one. The next
/// address in the page is one byte on.
pub proof fn law_addresses_reach_all_bytes(addr: usize, k: int, l: int)
    requires
        byte_in_page(addr, k),
    ensures
        exists|m: int| byte_in_page(addr, m),
        byte_in_page(addr, l) ==> l == k,
        k < 4095 ==> byte_in_page((addr + 1) as usize, k + 1),
{
    let start = choose|start: int| start % 4096 == 0 && #[trigger] (start + k) == addr;
    if byte_in_page(addr, l) {
        let other = choose|start: int| start % 4096 == 0 && #[trigger] (start + l) == addr;
    }
    if k < 4095 {
        assert(addr < usize::MAX) by {
            if addr == usize::MAX {
                assert(usize::MAX % 4096 == 4095) by {
                    if usize::BITS == 64 {
                        assert(usize::MAX == 0xffff_ffff_ffff_ffff);
                    } else {
                        assert(usize::MAX == 0xffff_ffff);
                    }
                }
            }
        }
        assert(start + (k + 1) == (addr + 1) as usize);
    }
}

/// A byte is read where user code may read the page, at the distance of its address from the
/// start of the page. Nothing changes.
pub proof fn law_user_read(page: &mut Option<UserPage>, addr: usize, k: int, byte: Option<u8>)
    requires
        byte_in_page(addr, k),
        call_ensures(user_read_u8, (page, addr), byte),
    ensures
        may_read(*old(page)) ==> byte == Some((*old(page))->0.bytes@[k]),
        !may_read(*old(page)) ==> byte is None,
        same_page(*old(page), *final(page)),
{
    lemma_byte_in_page(addr, k);
}

/// A byte is written where user code may write the page, at the distance of its address from the
/// start of the page. No other byte changes.
pub proof fn law_user_write(
    page: &mut Option<UserPage>,
    addr: usize,
    value: u8,
    k: int,
    done: Option<()>,
)
    requires
        (*old(page)) is Some ==> (*old(page))->0.bytes.len() == 4096,
        byte_in_page(addr, k),
        call_ensures(user_write_u8, (page, addr, value), done),
    ensures
        done is Some <==> may_write(*old(page)),
        done is Some ==> same_page_but(*old(page), *final(page), k, value),
        done is None ==> same_page(*old(page), *final(page)),
{
    lemma_byte_in_page(addr, k);
}

/// The byte that is handed over is the one at the distance of the address from the start of the
/// page, and the one that comes back takes its place. No other byte changes.
pub proof fn law_with_user_byte<R, F: FnOnce(u8) -> (u8, R)>(
    page: &mut Option<UserPage>,
    addr: usize,
    need_write: bool,
    f: F,
    k: int,
    result: Option<R>,
)
    requires
        (*old(page)) is Some ==> (*old(page))->0.bytes.len() == 4096,
        byte_in_page(addr, k),
        call_ensures(with_user_byte::<R, F>, (page, addr, need_write, f), result),
    ensures
        result is Some <==> if need_write {
            may_write(*old(page))
        } else {
            may_read(*old(page))
        },
        result is None ==> same_page(*old(page), *final(page)),
        result matches Some(v) ==> {
            &&& call_ensures(
                f,
                ((*old(page))->0.bytes@[k],),
                ((*final(page))->0.bytes@[k], v),
            )
            &&& same_page_but(*old(page), *final(page), k, (*final(page))->0.bytes@[k])
        },
{
    lemma_byte_in_page(addr, k);
}

/// Request 0 reads a byte, request 1 writes the low byte of `data`, request 2 gives a count, and
/// any other is refused. Minus one says that user code may not do so. Only a write changes the
/// page, and only the byte at the distance of the address from the start of the page.
pub proof fn law_trace<F: FnOnce(usize) -> usize>(
    request: usize,
    id: usize,
    data: usize,
    page: &mut Option<UserPage>,
    count: F,
    k: int,
    result: isize,
    high: int,
    low: int,
)
    requires
        (*old(page)) is Some ==> (*old(page))->0.bytes.len() == 4096,
        byte_in_page(id, k),
        data == high * 256 + low,
        0 <= low < 256,
        call_ensures(sys_trace::<F>, (request, id, data, page, count), result),
    ensures
        request == 0 ==> result == if may_read(*old(page)) {
            (*old(page))->0.bytes@[k] as int
        } else {
            -1
        },
        request == 1 ==> result == if may_write(*old(page)) {
            0int
        } else {
            -1
        },
        request == 1 && may_write(*old(page)) ==> same_page_but(
            *old(page),
            *final(page),
            k,
            low as u8,
        ),
        request == 2 ==> exists|n: usize| #[trigger]
            call_ensures(count, (id,), n) && result == signed_word(n),
        request != 0 && request != 1 && request != 2 ==> result == -1,
        !(request == 1 && may_write(*old(page))) ==> same_page(*old(page), *final(page)),
{
    lemma_byte_in_page(id, k);
    assert(data % 256 == low);
}

/// The task is suspended and the answer is zero.
pub proof fn law_yield<F: FnOnce()>(suspend: F, result: isize)
    requires
        call_ensures(sys_yield::<F>, (suspend,), result),
    ensures
        result == 0,
        call_ensures(suspend, (), ()),
{
}

/// The answer is the old break as a signed word, or minus one where it could not be moved by
/// `size`.
pub proof fn law_sbrk<F: FnOnce(i32) -> Option<usize>>(size: i32, change: F, result: isize)
    requires
        call_ensures(sys_sbrk::<F>, (size, change), result),
    ensures
        exists|brk: Option<usize>| #[trigger]
            call_ensures(change, (size,), brk) && result == match brk {
                Some(old_brk) => signed_word(old_brk),
                None => -1,
            },
{
}

/// Each of the three bits asks for one permission; user mode is always among those given. No bit,
/// or any other bit, is refused.
pub proof fn law_protection_bits(
    prot: usize,
    read: bool,
    write: bool,
    execute: bool,
    rest: int,
    perm: Option<MapPermission>,
)
    requires
        call_ensures(prot_to_permission, (prot,), perm),
        prot == (if read {
            1int
        } else {
            0
        }) + (if write {
            2int
        } else {
            0
        }) + (if execute {
            4int
        } else {
            0
        }) + 8 * rest,
    ensures
        perm is Some <==> rest == 0 && (read || write || execute),
        perm matches Some(p) ==> p.readable == read && p.writable == write && p.executable
            == execute && p.user,
{
}

/// A length is rounded up to the next whole page, and refused only where no whole page above it
/// can be counted.
pub proof fn law_lengths_are_rounded_up(len: usize, aligned: Option<usize>, pages: int)
    requires
        call_ensures(align_len_up, (len,), aligned),
    ensures
        aligned matches Some(n) ==> n % 4096 == 0 && len <= n < len + 4096,
        aligned is None && pages * 4096 >= len ==> pages * 4096 > usize::MAX,
{
}

/// A request to map is refused where `start` is no page, the permissions are none that can be given,
/// or the pages end beyond the last address. Else nothing is done for no bytes, and otherwise the
/// fewest pages that hold the bytes are mapped with the permissions asked for, and the answer says
/// whether that went well.
pub proof fn law_mmap<F: FnOnce(usize, usize, MapPermission) -> Result<(), ()>>(
    start: usize,
    len: usize,
    prot: usize,
    mmap: F,
    result: isize,
    end: int,
    perm: Option<MapPermission>,
)
    requires
        call_ensures(sys_mmap::<F>, (start, len, prot, mmap), result),
        call_ensures(prot_to_permission, (prot,), perm),
        ends_pages(start, len, end),
    ensures
        start % 4096 != 0 || perm is None || end > usize::MAX ==> result == -1,
        start % 4096 == 0 && perm is Some && end <= usize::MAX && len == 0 ==> result == 0,
        start % 4096 == 0 && perm is Some && end <= usize::MAX && len > 0 ==> exists|
            done: Result<(), ()>,
        | #[trigger]
            call_ensures(mmap, (start, end as usize, perm->0), done) && result == status(done),
{
    assert(process::whole_pages(len) == end - start);
}

/// A request to unmap is refused where `start` or `len` is no whole number of pages, or the range
/// ends beyond the last address. Else nothing is done for no bytes, and otherwise exactly the range
/// is unmapped, and the answer says whether that went well.
pub proof fn law_munmap<F: FnOnce(usize, usize) -> Result<(), ()>>(
    start: usize,
    len: usize,
    munmap: F,
    result: isize,
)
    requires
        call_ensures(sys_munmap::<F>, (start, len, munmap), result),
    ensures
        start % 4096 != 0 || len % 4096 != 0 || start + len > usize::MAX ==> result == -1,
        start % 4096 == 0 && len == 0 ==> result == 0,
        start % 4096 == 0 && len % 4096 == 0 && start + len <= usize::MAX && len > 0 ==> exists|
            done: Result<(), ()>,
        | #[trigger]
            call_ensures(munmap, (start, (start + len) as usize), done) && result == status(done),
{
}

/// The seconds and the microseconds make up the time, and there are fewer than a million of the
/// latter.
pub proof fn law_time_is_split(now_us: usize, t: TimeVal)
    requires
        call_ensures(TimeVal::from_us, (now_us,), t),
    ensures
        t.sec * 1_000_000 + t.usec == now_us,
        0 <= t.usec < 1_000_000,
{
}

/// The digit of `x` to base 256 at place `i`.
pub open spec fn digit(x: usize, i: nat) -> int {
    (x as int / vstd::arithmetic::power::pow(256, i)) % 256
}

/// The bytes of a number are its digits to base 256, the lowest first.
proof fn lemma_digits(x: nat, n: nat, i: nat)
    requires
        i < n,
    ensures
        time::le_bytes(x, n).len() == n,
        time::le_bytes(x, n)[i as int] == (x as int / vstd::arithmetic::power::pow(256, i)) % 256,
    decreases n,
{
    vstd::arithmetic::power::lemma_pow0(256);
    let k = (n - 1) as nat;
    let rest = time::le_bytes(x / 0x100, k);
    time::lemma_le_bytes_len(x / 0x100, k);
    if i == 0 {
        assert(x as int / 1 == x);
    } else {
        let j = (i - 1) as nat;
        lemma_digits(x / 0x100, k, j);
        assert(vstd::arithmetic::power::pow(256, i) == 256 * vstd::arithmetic::power::pow(256, j))
            by {
            reveal(vstd::arithmetic::power::pow);
        }
        vstd::arithmetic::power::lemma_pow_positive(256, j);
        vstd::arithmetic::div_mod::lemma_div_denominator(
            x as int,
            256,
            vstd::arithmetic::power::pow(256, j),
        );
        assert(time::le_bytes(x, n)[i as int] == rest[j as int]);
    }
}

/// The bytes of a time are the digits of its seconds, then those of its microseconds, the lowest
/// first.
pub proof fn law_time_bytes(t: &TimeVal, bytes: Vec<u8>, i: nat)
    requires
        call_ensures(TimeVal::to_bytes, (t,), bytes),
        i < vstd::layout::size_of::<usize>(),
    ensures
        bytes@.len() == 2 * vstd::layout::size_of::<usize>(),
        bytes@[i as int] == digit(t.sec, i),
        bytes@[(vstd::layout::size_of::<usize>() + i) as int] == digit(t.usec, i),
{
    let w = vstd::layout::size_of::<usize>();
    lemma_digits(t.sec as nat, w, i);
    lemma_digits(t.usec as nat, w, i);
}

/// The contents of the buffers.
pub open spec fn contents(buffers: Seq<Vec<u8>>) -> Seq<Seq<u8>> {
    buffers.map_values(|b: Vec<u8>| b@)
}

/// Buffers that are joined are their contents one after the other.
proof fn lemma_joined(buffers: Seq<Vec<u8>>)
    ensures
        time::joined(buffers) == contents(buffers).flatten(),
    decreases buffers.len(),
{
    let all = contents(buffers);
    if buffers.len() > 0 {
        lemma_joined(buffers.drop_last());
        assert(contents(buffers.drop_last()) =~= all.drop_last());
        all.lemma_flatten_and_flatten_alt_are_equivalent();
        all.drop_last().lemma_flatten_and_flatten_alt_are_equivalent();
    }
}

/// Nothing is written to address zero. Elsewhere the buffers, one after the other, hold afterwards
/// the digits of the seconds and then those of the microseconds of the clock, the lowest first, and
/// each buffer has the length that it had.
pub proof fn law_get_time(
    ts: usize,
    tz: usize,
    now_us: usize,
    buffers: &mut Vec<Vec<u8>>,
    result: isize,
    sec: usize,
    usec: usize,
    i: nat,
)
    requires
        call_ensures(sys_get_time, (ts, tz, now_us, buffers), result),
        sec * 1_000_000 + usec == now_us,
        usec < 1_000_000,
        i < vstd::layout::size_of::<usize>(),
    ensures
        ts == 0 ==> result == -1 && *final(buffers) == *old(buffers),
        ts != 0 ==> {
            let w = vstd::layout::size_of::<usize>();
            let bytes = contents(final(buffers)@).flatten();
            &&& result == 0
            &&& bytes.len() == 2 * w
            &&& bytes[i as int] == digit(sec, i)
            &&& bytes[(w + i) as int] == digit(usec, i)
            &&& final(buffers).len() == old(buffers).len()
            &&& forall|b: int|
                0 <= b < old(buffers).len() ==> #[trigger] final(buffers)[b].len() == old(
                    buffers,
                )[b].len()
        },
{
    let w = vstd::layout::size_of::<usize>();
    lemma_joined(final(buffers)@);
    assert(now_us / 1_000_000 == sec);
    assert(now_us % 1_000_000 == usec);
    lemma_digits(sec as nat, w, i);
    lemma_digits(usec as nat, w, i);
}

} // verus!
