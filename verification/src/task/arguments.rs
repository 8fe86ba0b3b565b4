//! The arguments of a program on its stack.

use crate::config;
use vstd::prelude::*;

verus! {

/// The bytes of the arguments.
pub open spec fn arg_bytes(args: Seq<String>) -> Seq<Seq<u8>> {
    Seq::new(args.len(), |i: int| vstd::utf8::encode_utf8(args[i]@))
}

/// Where the stack stands once the first `n` arguments, each with a zero byte behind it, are
/// pushed below `top`.
pub open spec fn pushed_below(top: int, args: Seq<Seq<u8>>, n: int) -> int
    decreases n,
{
    if n <= 0 {
        top
    } else {
        pushed_below(top, args, n - 1) - (args[n - 1].len() + 1)
    }
}

/// The memory that the first `n` arguments take up, from the lowest address on.
pub open spec fn pushed_bytes(args: Seq<Seq<u8>>, n: int) -> Seq<u8>
    decreases n,
{
    if n <= 0 {
        Seq::empty()
    } else {
        args[n - 1].push(0) + pushed_bytes(args, n - 1)
    }
}

/// Where the argument vector of `argc` arguments starts: it ends at `ustack_top` and holds one
/// word for each argument and one for its end.
pub open spec fn vector_base(ustack_top: int, argc: nat) -> int {
    ustack_top - (argc + 1) * config::word_size()
}

/// The arguments fit between address zero and `ustack_top`.
pub open spec fn fits(ustack_top: int, args: Seq<Seq<u8>>) -> bool {
    pushed_below(vector_base(ustack_top, args.len()), args, args.len() as int) >= 0
}

/// What stands on the stack of a program that starts: from high to low addresses its argument
/// vector, its arguments, and where its stack pointer starts.
#[derive(Debug)]
pub struct ArgStack {
    /// The address of the argument vector.
    pub argv_base: usize,
    /// The words of the argument vector: the address of each argument, and zero.
    pub argv: Vec<usize>,
    /// The address of the lowest byte of the arguments.
    pub strings_base: usize,
    /// The bytes of the arguments, from the lowest address on.
    pub strings: Vec<u8>,
    /// Where the stack pointer starts.
    pub user_sp: usize,
}

impl ArgStack {
    /// The stack that ends at `ustack_top` and holds `args`.
    pub open spec fn holds(&self, ustack_top: usize, args: Seq<Seq<u8>>) -> bool {
        let argc = args.len();
        &&& self.argv_base == vector_base(ustack_top as int, argc)
        &&& self.argv.len() == argc + 1
        &&& forall|i: int|
            0 <= i < argc ==> #[trigger] self.argv[i] == pushed_below(
                self.argv_base as int,
                args,
                i + 1,
            )
        &&& self.argv[argc as int] == 0
        &&& self.strings_base == pushed_below(self.argv_base as int, args, argc as int)
        &&& self.strings@ == pushed_bytes(args, argc as int)
        &&& self.user_sp == self.strings_base - self.strings_base as int % config::word_size() as int
    }

    /// Lay the arguments out on the stack that ends at `ustack_top`.
    pub fn lay_out(ustack_top: usize, args: &Vec<String>) -> (stack: ArgStack)
        requires
            fits(ustack_top as int, arg_bytes(args@)),
        ensures
            stack.holds(ustack_top, arg_bytes(args@)),
    {
        let ghost bytes = arg_bytes(args@);
        let word = core::mem::size_of::<usize>();
        proof {
            lemma_vector_fits(ustack_top, bytes);
        }
        let mut user_sp: usize = ustack_top - (args.len() + 1) * word;
        let argv_base = user_sp;
        let mut argv: Vec<usize> = Vec::new();
        let mut i: usize = 0;
        while i < args.len()
            invariant
                i <= args.len(),
                bytes == arg_bytes(args@),
                argv_base == vector_base(ustack_top as int, bytes.len()),
                fits(ustack_top as int, bytes),
                user_sp == pushed_below(argv_base as int, bytes, i as int),
                argv.len() == i,
                forall|k: int|
                    0 <= k < i ==> #[trigger] argv[k] == pushed_below(
                        argv_base as int,
                        bytes,
                        k + 1,
                    ),
            decreases args.len() - i,
        {
            proof {
                lemma_pushed_decreases(argv_base as int, bytes, i + 1, bytes.len() as int);
            }
            let len = args[i].as_str().as_bytes().len();
            assert(len == bytes[i as int].len());
            user_sp = user_sp - (len + 1);
            argv.push(user_sp);
            i = i + 1;
        }
        argv.push(0);
        let strings_base = user_sp;
        let strings = join_from_last(args);
        user_sp = user_sp - user_sp % word;
        ArgStack { argv_base, argv, strings_base, strings, user_sp }
    }
}

/// Whether the arguments fit between address zero and `ustack_top`.
pub fn arguments_fit(ustack_top: usize, args: &Vec<String>) -> (b: bool)
    ensures
        b == fits(ustack_top as int, arg_bytes(args@)),
{
    let ghost bytes = arg_bytes(args@);
    proof {
        if fits(ustack_top as int, bytes) {
            lemma_vector_fits(ustack_top, bytes);
        }
    }
    let words = match args.len().checked_add(1) {
        Some(words) => words,
        None => return false,
    };
    let size = match words.checked_mul(core::mem::size_of::<usize>()) {
        Some(size) => size,
        None => return false,
    };
    if size > ustack_top {
        return false;
    }
    let argv_base = ustack_top - size;
    let mut user_sp: usize = argv_base;
    let mut i: usize = 0;
    while i < args.len()
        invariant
            i <= args.len(),
            bytes == arg_bytes(args@),
            argv_base == vector_base(ustack_top as int, bytes.len()),
            user_sp == pushed_below(argv_base as int, bytes, i as int),
        decreases args.len() - i,
    {
        let len = args[i].as_str().as_bytes().len();
        assert(len == bytes[i as int].len());
        if user_sp <= len {
            proof {
                lemma_pushed_decreases(argv_base as int, bytes, i + 1, bytes.len() as int);
            }
            return false;
        }
        user_sp = user_sp - (len + 1);
        i = i + 1;
    }
    true
}

/// The bytes of the arguments, each with a zero byte behind it, the last argument first.
fn join_from_last(args: &Vec<String>) -> (strings: Vec<u8>)
    ensures
        strings@ == pushed_bytes(arg_bytes(args@), args.len() as int),
{
    let ghost bytes = arg_bytes(args@);
    let mut strings: Vec<u8> = Vec::new();
    let mut i: usize = args.len();
    assert(strings@ + pushed_bytes(bytes, i as int) =~= pushed_bytes(bytes, i as int));
    while i > 0
        invariant
            i <= args.len(),
            bytes == arg_bytes(args@),
            strings@ + pushed_bytes(bytes, i as int) == pushed_bytes(bytes, args.len() as int),
        decreases i,
    {
        let ghost before = strings@;
        let arg = args[i - 1].as_str().as_bytes();
        assert(arg@ == bytes[i - 1]);
        let mut k: usize = 0;
        while k < arg.len()
            invariant
                k <= arg.len(),
                strings@ == before + arg@.take(k as int),
            decreases arg.len() - k,
        {
            strings.push(arg[k]);
            k = k + 1;
            assert(strings@ =~= before + arg@.take(k as int));
        }
        strings.push(0);
        assert(strings@ + pushed_bytes(bytes, i - 1) =~= before + pushed_bytes(bytes, i as int));
        i = i - 1;
    }
    assert(strings@ + pushed_bytes(bytes, 0) =~= strings@);
    strings
}

/// The more arguments are pushed, the lower the stack stands.
proof fn lemma_pushed_decreases(top: int, args: Seq<Seq<u8>>, m: int, n: int)
    requires
        0 <= m <= n,
    ensures
        pushed_below(top, args, n) <= pushed_below(top, args, m) - (n - m),
        pushed_below(top, args, m) <= top - m,
    decreases n,
{
    if m < n {
        lemma_pushed_decreases(top, args, m, n - 1);
    } else if m > 0 {
        lemma_pushed_decreases(top, args, m - 1, m - 1);
    }
}

/// Where the arguments fit, so does their vector.
proof fn lemma_vector_fits(ustack_top: usize, args: Seq<Seq<u8>>)
    requires
        fits(ustack_top as int, args),
    ensures
        args.len() + 1 <= usize::MAX,
        0 <= (args.len() + 1) * config::word_size() <= ustack_top,
{
    broadcast use vstd::layout::layout_of_primitives;

    let argc = args.len();
    lemma_pushed_decreases(vector_base(ustack_top as int, argc), args, 0, argc as int);
    assert(argc + 1 <= (argc + 1) * config::word_size()) by (nonlinear_arith)
        requires
            config::word_size() >= 1,
    ;
}

/// The pushed bytes fill the memory between the stack before and after.
proof fn lemma_pushed_len(top: int, args: Seq<Seq<u8>>, n: int)
    requires
        0 <= n,
    ensures
        pushed_bytes(args, n).len() == top - pushed_below(top, args, n),
    decreases n,
{
    if n > 0 {
        lemma_pushed_len(top, args, n - 1);
    }
}

/// The argument at `i` stands in the bytes of the first `n` where its address says.
proof fn lemma_pushed_at(top: int, args: Seq<Seq<u8>>, i: int, n: int)
    requires
        0 <= i < n,
    ensures
        ({
            let at = pushed_below(top, args, i + 1) - pushed_below(top, args, n);
            let end = at + args[i].len() + 1;
            &&& 0 <= at
            &&& end <= pushed_bytes(args, n).len()
            &&& pushed_bytes(args, n).subrange(at, end) == args[i].push(0)
        }),
    decreases n,
{
    lemma_pushed_len(top, args, n);
    lemma_pushed_len(top, args, i);
    lemma_pushed_decreases(top, args, i + 1, n);
    lemma_pushed_decreases(top, args, 0, i);
    let at = pushed_below(top, args, i + 1) - pushed_below(top, args, n);
    let end = at + args[i].len() + 1;
    let all = pushed_bytes(args, n);
    if i == n - 1 {
        assert(all.subrange(at, end) =~= args[i].push(0));
    } else {
        lemma_pushed_at(top, args, i, n - 1);
        let rest = pushed_bytes(args, n - 1);
        let shift = args[n - 1].len() + 1;
        assert(all.subrange(at, end) =~= rest.subrange(at - shift, end - shift));
    }
}

/// A program finds each argument, with a zero byte behind it, at the address that its argument
/// vector gives.
pub proof fn law_arguments_found(stack: ArgStack, ustack_top: usize, args: Seq<Seq<u8>>, i: int)
    requires
        stack.holds(ustack_top, args),
        0 <= i < args.len(),
    ensures
        ({
            let at = stack.argv[i] - stack.strings_base;
            let end = at + args[i].len() + 1;
            &&& 0 <= at
            &&& end <= stack.strings.len()
            &&& stack.strings@.subrange(at, end) == args[i].push(0)
        }),
{
    lemma_pushed_at(stack.argv_base as int, args, i, args.len() as int);
}

/// The parts of the stack do not overlap: the first argument ends where the vector starts, every
/// other where the one before it starts, the last starts where the arguments do, and the vector
/// ends at the top.
pub proof fn law_stack_is_gapless(stack: ArgStack, ustack_top: usize, args: Seq<Seq<u8>>, i: int)
    requires
        stack.holds(ustack_top, args),
        0 <= i < args.len(),
    ensures
        i == 0 ==> stack.argv[i] + args[i].len() + 1 == stack.argv_base,
        i > 0 ==> stack.argv[i] + args[i].len() + 1 == stack.argv[i - 1],
        i == args.len() - 1 ==> stack.argv[i] == stack.strings_base,
        stack.strings_base + stack.strings.len() == stack.argv_base,
        stack.argv_base + stack.argv.len() * config::word_size() == ustack_top,
{
    lemma_pushed_len(stack.argv_base as int, args, args.len() as int);
    reveal_with_fuel(pushed_below, 2);
}

/// The stack pointer starts at a whole word, below everything on the stack and less than a word
/// below it.
pub proof fn law_stack_pointer_is_aligned(stack: ArgStack, ustack_top: usize, args: Seq<Seq<u8>>)
    requires
        stack.holds(ustack_top, args),
    ensures
        stack.user_sp as int % config::word_size() as int == 0,
        stack.user_sp <= stack.strings_base < stack.user_sp + config::word_size(),
        stack.strings_base <= stack.argv_base < ustack_top,
{
    broadcast use vstd::layout::layout_of_primitives;

    let argc = args.len();
    lemma_pushed_decreases(stack.argv_base as int, args, 0, argc as int);
    assert((argc + 1) * config::word_size() >= 1) by (nonlinear_arith)
        requires
            config::word_size() >= 1,
    ;
    let w = config::word_size() as int;
    let b = stack.strings_base as int;
    vstd::arithmetic::div_mod::lemma_fundamental_div_mod(b, w);
    vstd::arithmetic::div_mod::lemma_mod_multiples_basic(b / w, w);
    assert(w * (b / w) == (b / w) * w) by (nonlinear_arith);
}

/// What a program finds on its stack: at the top a vector with the address of each argument and a
/// zero; at each of these addresses the bytes of the argument and a zero byte, the first argument
/// directly below the vector and every other directly below the one before it; and below them all,
/// by less than a word, the stack pointer at a whole word.
pub open spec fn stack_of(stack: ArgStack, ustack_top: usize, args: Seq<String>) -> bool {
    let w = vstd::layout::size_of::<usize>();
    let n = args.len();
    &&& stack.argv@.len() == n + 1
    &&& stack.argv@[n as int] == 0
    &&& stack.argv_base + (n + 1) * w == ustack_top
    &&& stack.strings_base + stack.strings@.len() == stack.argv_base
    &&& forall|i: int|
        0 <= i < n ==> {
            let at = #[trigger] stack.argv@[i];
            let bytes = vstd::utf8::encode_utf8(args[i]@);
            let end = if i == 0 {
                stack.argv_base
            } else {
                stack.argv@[i - 1]
            };
            &&& stack.strings_base <= at
            &&& at + bytes.len() + 1 == end
            &&& stack.strings@.subrange(
                at - stack.strings_base,
                end - stack.strings_base,
            ) == bytes.push(0)
        }
    &&& n > 0 ==> stack.argv@[n - 1] == stack.strings_base
    &&& stack.user_sp as int % w as int == 0
    &&& stack.user_sp <= stack.strings_base < stack.user_sp + w
}

/// A stack that holds the arguments is one on which a program finds them.
pub proof fn lemma_stack_of(stack: ArgStack, ustack_top: usize, args: Seq<String>)
    requires
        stack.holds(ustack_top, arg_bytes(args)),
    ensures
        stack_of(stack, ustack_top, args),
{
    let bytes = arg_bytes(args);
    let n = args.len();
    law_stack_pointer_is_aligned(stack, ustack_top, bytes);
    lemma_pushed_len(stack.argv_base as int, bytes, n as int);
    assert forall|i: int| 0 <= i < n implies {
        let at = #[trigger] stack.argv@[i];
        let one = vstd::utf8::encode_utf8(args[i]@);
        let end = if i == 0 {
            stack.argv_base
        } else {
            stack.argv@[i - 1]
        };
        &&& stack.strings_base <= at
        &&& at + one.len() + 1 == end
        &&& stack.strings@.subrange(at - stack.strings_base, end - stack.strings_base) == one.push(
            0,
        )
    } by {
        law_arguments_found(stack, ustack_top, bytes, i);
        law_stack_is_gapless(stack, ustack_top, bytes, i);
        assert(stack.argv[i] == stack.argv@[i]);
    }
    if n > 0 {
        law_stack_is_gapless(stack, ustack_top, bytes, n - 1);
    }
}

/// A laid out stack is one on which a program finds its arguments.
pub proof fn law_lay_out(ustack_top: usize, args: &Vec<String>, stack: ArgStack)
    requires
        call_ensures(ArgStack::lay_out, (ustack_top, args), stack),
    ensures
        stack_of(stack, ustack_top, args@),
{
    lemma_stack_of(stack, ustack_top, args@);
}

/// The bytes of a sequence of arguments with one more.
proof fn lemma_arg_bytes_push(args: Seq<String>, more: String)
    ensures
        arg_bytes(args.push(more)) == arg_bytes(args).push(vstd::utf8::encode_utf8(more@)),
{
    assert(arg_bytes(args.push(more)) =~= arg_bytes(args).push(
        vstd::utf8::encode_utf8(more@),
    ));
}

/// The first `n` arguments take the same room under another top, and whatever comes behind them.
proof fn lemma_pushed_same(top: int, other: int, a: Seq<Seq<u8>>, b: Seq<Seq<u8>>, n: int)
    requires
        0 <= n <= a.len(),
        n <= b.len(),
        forall|i: int| 0 <= i < n ==> #[trigger] a[i] == b[i],
    ensures
        pushed_below(top, a, n) - top == pushed_below(other, b, n) - other,
    decreases n,
{
    if n > 0 {
        lemma_pushed_same(top, other, a, b, n - 1);
        assert(a[n - 1] == b[n - 1]);
    }
}

/// No arguments need one word. One more argument needs room for its bytes, a zero byte and a word,
/// and no more than that.
pub proof fn law_room_for_arguments(
    ustack_top: usize,
    args: &Vec<String>,
    fit: bool,
    higher_top: usize,
    more: &Vec<String>,
    more_fit: bool,
    arg: String,
)
    requires
        call_ensures(arguments_fit, (ustack_top, args), fit),
        call_ensures(arguments_fit, (higher_top, more), more_fit),
        more@ == args@.push(arg),
        higher_top == ustack_top + vstd::utf8::encode_utf8(arg@).len() + 1
            + vstd::layout::size_of::<usize>(),
    ensures
        args@.len() == 0 ==> (fit <==> ustack_top >= vstd::layout::size_of::<usize>()),
        more_fit == fit,
{
    let a = arg_bytes(args@);
    let b = arg_bytes(more@);
    lemma_arg_bytes_push(args@, arg);
    let n = a.len();
    let w = vstd::layout::size_of::<usize>();
    let top = vector_base(ustack_top as int, n);
    let high = vector_base(higher_top as int, n + 1);
    assert((n + 2) * w == (n + 1) * w + w) by (nonlinear_arith);
    assert(high == top + vstd::utf8::encode_utf8(arg@).len() + 1);
    assert forall|i: int| 0 <= i < n implies #[trigger] a[i] == b[i] by {}
    lemma_pushed_same(top, high, a, b, n as int);
    assert(b[n as int] == vstd::utf8::encode_utf8(arg@));
    assert((0 + 1) * w == w) by (nonlinear_arith);
}

/// Nothing fits on a stack that has no room for the last argument, its zero byte and its word.
pub proof fn law_no_room_for_arguments(ustack_top: usize, args: &Vec<String>, fit: bool)
    requires
        call_ensures(arguments_fit, (ustack_top, args), fit),
        args@.len() > 0,
        ustack_top < vstd::utf8::encode_utf8(args@.last()@).len() + 1
            + vstd::layout::size_of::<usize>(),
    ensures
        !fit,
{
    let a = arg_bytes(args@);
    let n = a.len();
    let w = vstd::layout::size_of::<usize>();
    let top = vector_base(ustack_top as int, n);
    lemma_pushed_decreases(top, a, 0, n - 1);
    assert((n + 1) * w >= w) by (nonlinear_arith)
        requires
            w >= 0,
    ;
    assert(a[n - 1] == vstd::utf8::encode_utf8(args@.last()@));
}

} // verus!
