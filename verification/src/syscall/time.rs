//! The time of day for user space.

use crate::config;
use vstd::prelude::*;

verus! {

/// A time in seconds and microseconds.
#[derive(Clone, Copy, Debug, PartialEq, Eq, Structural)]
pub struct TimeVal {
    pub sec: usize,
    pub usec: usize,
}

/// The low `n` bytes of `x`, the lowest first.
pub open spec fn le_bytes(x: nat, n: nat) -> Seq<u8>
    decreases n,
{
    if n == 0 {
        Seq::empty()
    } else {
        seq![(x % 0x100) as u8] + le_bytes(x / 0x100, (n - 1) as nat)
    }
}

/// The number whose bytes are `bytes`, the lowest first.
pub open spec fn from_le_bytes(bytes: Seq<u8>) -> nat
    decreases bytes.len(),
{
    if bytes.len() == 0 {
        0
    } else {
        bytes[0] as nat + 0x100 * from_le_bytes(bytes.drop_first())
    }
}

/// The bytes of the buffers, one buffer after the other.
pub open spec fn joined(buffers: Seq<Vec<u8>>) -> Seq<u8>
    decreases buffers.len(),
{
    if buffers.len() == 0 {
        Seq::empty()
    } else {
        joined(buffers.drop_last()) + buffers.last()@
    }
}

impl TimeVal {
    /// The bytes of the time in memory: the seconds, then the microseconds, the lowest byte of
    /// each first.
    pub open spec fn bytes(self) -> Seq<u8> {
        le_bytes(self.sec as nat, config::word_size()) + le_bytes(self.usec as nat, config::word_size())
    }

    /// The time of a clock that counts microseconds.
    pub open spec fn of_microseconds(us: usize) -> TimeVal {
        TimeVal { sec: us / 1_000_000, usec: us % 1_000_000 }
    }

    /// The time of a clock that counts microseconds.
    pub fn from_us(now_us: usize) -> (t: TimeVal)
        ensures
            t == TimeVal::of_microseconds(now_us),
    {
        TimeVal { sec: now_us / 1_000_000, usec: now_us % 1_000_000 }
    }

    /// The bytes of the time in memory.
    pub fn to_bytes(&self) -> (bytes: Vec<u8>)
        ensures
            bytes@ == self.bytes(),
    {
        let mut bytes: Vec<u8> = Vec::new();
        push_le_bytes(&mut bytes, self.sec);
        push_le_bytes(&mut bytes, self.usec);
        assert(bytes@ =~= self.bytes());
        bytes
    }
}

/// Appends the bytes of `x`, the lowest first.
fn push_le_bytes(bytes: &mut Vec<u8>, x: usize)
    ensures
        final(bytes)@ == old(bytes)@ + le_bytes(x as nat, config::word_size()),
{
    let n = core::mem::size_of::<usize>();
    let ghost start = bytes@;
    let mut rest: usize = x;
    let mut i: usize = 0;
    assert(bytes@ + le_bytes(rest as nat, config::word_size()) =~= start + le_bytes(
        x as nat,
        config::word_size(),
    ));
    while i < n
        invariant
            i <= n,
            n == config::word_size(),
            bytes@ + le_bytes(rest as nat, (n - i) as nat) == start + le_bytes(
                x as nat,
                config::word_size(),
            ),
        decreases n - i,
    {
        let ghost before = bytes@;
        bytes.push((rest % 0x100) as u8);
        assert(bytes@ + le_bytes((rest / 0x100) as nat, (n - i - 1) as nat) =~= before + le_bytes(
            rest as nat,
            (n - i) as nat,
        ));
        rest = rest / 0x100;
        i = i + 1;
    }
    assert(bytes@ + le_bytes(rest as nat, 0) =~= bytes@);
}

/// The length of an encoding.
pub proof fn lemma_le_bytes_len(x: nat, n: nat)
    ensures
        le_bytes(x, n).len() == n,
    decreases n,
{
    if n > 0 {
        lemma_le_bytes_len(x / 0x100, (n - 1) as nat);
    }
}

/// The first `n` buffers hold no more than all of them.
proof fn lemma_joined_prefix(buffers: Seq<Vec<u8>>, n: int)
    requires
        0 <= n <= buffers.len(),
    ensures
        joined(buffers.take(n)).len() <= joined(buffers).len(),
    decreases buffers.len(),
{
    if n == buffers.len() {
        assert(buffers.take(n) =~= buffers);
    } else {
        lemma_joined_prefix(buffers.drop_last(), n);
        assert(buffers.drop_last().take(n) =~= buffers.take(n));
    }
}

/// Copies `src` into the buffers, one after the other.
fn scatter(src: &Vec<u8>, buffers: &mut Vec<Vec<u8>>)
    requires
        joined(old(buffers)@).len() == src.len(),
    ensures
        joined(final(buffers)@) == src@,
        final(buffers).len() == old(buffers).len(),
        forall|i: int|
            0 <= i < old(buffers).len() ==> #[trigger] final(buffers)[i].len() == old(
                buffers,
            )[i].len(),
{
    let ghost start = buffers@;
    let mut written: usize = 0;
    let mut b: usize = 0;
    while b < buffers.len()
        invariant
            joined(start).len() == src.len(),
            buffers.len() == start.len(),
            b <= buffers.len(),
            written == joined(start.take(b as int)).len(),
            joined(buffers@.take(b as int)) == src@.take(written as int),
            written <= src.len(),
            forall|i: int|
                0 <= i < start.len() ==> #[trigger] buffers[i].len() == start[i].len(),
        decreases buffers.len() - b,
    {
        let len = buffers[b].len();
        proof {
            lemma_joined_prefix(start, b + 1);
            assert(start.take(b + 1).drop_last() =~= start.take(b as int));
            assert(start.take(b + 1).last() == start[b as int]);
        }
        let end = written + len;
        let mut chunk: Vec<u8> = Vec::new();
        let mut i: usize = written;
        while i < end
            invariant
                written <= i <= end <= src.len(),
                chunk@ == src@.subrange(written as int, i as int),
            decreases end - i,
        {
            chunk.push(src[i]);
            i = i + 1;
            assert(chunk@ =~= src@.subrange(written as int, i as int));
        }
        let ghost before = buffers@;
        buffers[b] = chunk;
        proof {
            assert(buffers@.take(b + 1).drop_last() =~= before.take(b as int));
            assert(src@.take(written as int) + src@.subrange(written as int, end as int)
                =~= src@.take(end as int));
        }
        written = end;
        b = b + 1;
    }
    assert(start.take(b as int) =~= start);
    assert(buffers@.take(b as int) =~= buffers@);
    assert(src@.take(written as int) =~= src@);
}

/// get time with second and microsecond
///
/// `ts` is the address of the caller's [`TimeVal`], and `buffers` stand for the pieces of memory
/// that it covers, which may lie in several pages. Nothing is written to address zero.
pub fn sys_get_time(ts: usize, _tz: usize, now_us: usize, buffers: &mut Vec<Vec<u8>>) -> (status:
    isize)
    requires
        ts != 0 ==> joined(old(buffers)@).len() == 2 * config::word_size(),
    ensures
        ts == 0 ==> status == -1 && *final(buffers) == *old(buffers),
        ts != 0 ==> {
            &&& status == 0
            &&& joined(final(buffers)@) == TimeVal::of_microseconds(now_us).bytes()
            &&& final(buffers).len() == old(buffers).len()
            &&& forall|i: int|
                0 <= i < old(buffers).len() ==> #[trigger] final(buffers)[i].len() == old(
                    buffers,
                )[i].len()
        },
{
    if ts == 0 {
        return -1;
    }
    let time_val = TimeVal::from_us(now_us);
    let src = time_val.to_bytes();
    proof {
        lemma_le_bytes_len(time_val.sec as nat, config::word_size());
        lemma_le_bytes_len(time_val.usec as nat, config::word_size());
    }
    scatter(&src, buffers);
    0
}

/// The bytes of a number that fits in them give the number back.
proof fn lemma_le_round_trip(x: nat, n: nat)
    requires
        x < vstd::arithmetic::power::pow(0x100, n),
    ensures
        from_le_bytes(le_bytes(x, n)) == x,
    decreases n,
{
    vstd::arithmetic::power::lemma_pow0(0x100);
    if n > 0 {
        let k = (n - 1) as nat;
        assert(vstd::arithmetic::power::pow(0x100, n) == 0x100 * vstd::arithmetic::power::pow(
            0x100,
            k,
        )) by {
            reveal(vstd::arithmetic::power::pow);
        }
        lemma_le_round_trip(x / 0x100, k);
        let bytes = le_bytes(x, n);
        assert(bytes.drop_first() =~= le_bytes(x / 0x100, k));
    }
}

/// User space reads back the time that was written: its words are the seconds and the
/// microseconds, and together they make up the microseconds of the clock.
pub proof fn law_time_reads_back(now_us: usize)
    ensures
        ({
            let t = TimeVal::of_microseconds(now_us);
            let bytes = t.bytes();
            let w = config::word_size() as int;
            &&& bytes.len() == 2 * w
            &&& from_le_bytes(bytes.subrange(0, w)) == t.sec
            &&& from_le_bytes(bytes.subrange(w, 2 * w)) == t.usec
            &&& t.usec < 1_000_000
            &&& t.sec * 1_000_000 + t.usec == now_us
        }),
{
    let t = TimeVal::of_microseconds(now_us);
    let bytes = t.bytes();
    let n = config::word_size();
    let w = n as int;
    lemma_le_bytes_len(t.sec as nat, n);
    lemma_le_bytes_len(t.usec as nat, n);
    lemma_word_fits(t.sec);
    lemma_word_fits(t.usec);
    lemma_le_round_trip(t.sec as nat, n);
    lemma_le_round_trip(t.usec as nat, n);
    assert(bytes.subrange(0, w) =~= le_bytes(t.sec as nat, n));
    assert(bytes.subrange(w, 2 * w) =~= le_bytes(t.usec as nat, n));
}

/// A word fits in its bytes.
proof fn lemma_word_fits(x: usize)
    ensures
        x < vstd::arithmetic::power::pow(0x100, config::word_size()),
{
    broadcast use vstd::layout::layout_of_primitives;

    reveal(vstd::arithmetic::power::pow);
    reveal_with_fuel(vstd::arithmetic::power::pow, 9);
    assert(config::word_size() * 8 == usize::BITS);
}

} // verus!
