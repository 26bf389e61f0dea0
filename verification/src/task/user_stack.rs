//! The arguments of a program, as they are laid out on its stack.
//!
//! From the top of the stack down: the vector of argument pointers with a null
//! pointer behind the last one, then the arguments themselves, the first one
//! highest, each with a zero byte behind it.

use vstd::prelude::*;
#[allow(unused_imports)]
use vstd::bytes::{spec_u64_from_le_bytes, spec_u64_to_le_bytes};
#[allow(unused_imports)]
use vstd::utf8::encode_utf8;

verus! {

/// The size of a pointer in user space.
pub const WORD: usize = 8;

/// One store into the memory of the program.
#[derive(Clone, Copy, Debug, PartialEq, Eq, Structural)]
pub enum UserStore {
    /// A word, lowest byte first.
    Word { addr: usize, word: usize },
    /// A single byte.
    Byte { addr: usize, byte: u8 },
}

/// A stack with the arguments on it.
pub struct UserStack {
    /// The stores that put them there, in order.
    pub stores: Vec<UserStore>,
    /// Where the vector of argument pointers is.
    pub argv_base: usize,
    /// The stack pointer below them.
    pub user_sp: usize,
}

/// The bytes of the arguments.
pub open spec fn arg_bytes(args: Seq<String>) -> Seq<Seq<u8>> {
    args.map_values(|arg: String| encode_utf8(arg@))
}

/// The room that the first `n` arguments take, each with its zero byte.
pub open spec fn text_size(args: Seq<Seq<u8>>, n: int) -> int
    decreases n,
{
    if n <= 0 {
        0
    } else {
        text_size(args, n - 1) + args[n - 1].len() + 1
    }
}

/// The room that all arguments and the vector of pointers to them take.
pub open spec fn stack_size(args: Seq<Seq<u8>>) -> int {
    (args.len() + 1) * WORD + text_size(args, args.len() as int)
}

/// Where the vector of argument pointers is.
pub open spec fn argv_addr(top: int, args: Seq<Seq<u8>>) -> int {
    top - (args.len() + 1) * WORD
}

/// Where argument `i` is.
pub open spec fn text_addr(top: int, args: Seq<Seq<u8>>, i: int) -> int {
    argv_addr(top, args) - text_size(args, i + 1)
}

/// `addr` rounded down to a multiple of the word size.
pub open spec fn word_aligned(addr: int) -> int {
    addr - addr % (WORD as int)
}

/// One byte store after another, upwards from `addr`.
pub open spec fn byte_stores(addr: int, bytes: Seq<u8>) -> Seq<UserStore> {
    Seq::new(
        bytes.len(),
        |k: int| UserStore::Byte { addr: (addr + k) as usize, byte: bytes[k] },
    )
}

/// The stores for argument `i`: its pointer, its bytes, a zero byte.
pub open spec fn one_argument(top: int, args: Seq<Seq<u8>>, i: int) -> Seq<UserStore> {
    seq![
        UserStore::Word {
            addr: (argv_addr(top, args) + i * WORD) as usize,
            word: text_addr(top, args, i) as usize,
        },
    ] + byte_stores(text_addr(top, args, i), args[i].push(0u8))
}

/// The stores for the null pointer and the first `n` arguments.
pub open spec fn argument_stores(top: int, args: Seq<Seq<u8>>, n: int) -> Seq<UserStore>
    decreases n,
{
    if n <= 0 {
        seq![
            UserStore::Word {
                addr: (argv_addr(top, args) + args.len() * WORD) as usize,
                word: 0,
            },
        ]
    } else {
        argument_stores(top, args, n - 1) + one_argument(top, args, n - 1)
    }
}

proof fn lemma_text_size_grows(args: Seq<Seq<u8>>, i: int, n: int)
    requires
        0 <= i <= n,
    ensures
        0 <= text_size(args, i) <= text_size(args, n),
        i < n ==> text_size(args, i + 1) == text_size(args, i) + args[i].len() + 1,
        i < n ==> text_size(args, i + 1) <= text_size(args, n),
    decreases n,
{
    if i < n {
        lemma_text_size_grows(args, i, n - 1);
    } else if 0 < i {
        lemma_text_size_grows(args, i - 1, n - 1);
    }
}

/// Lays `args` out on a stack that ends at `ustack_top`. The stack pointer ends
/// up below them, at a multiple of the word size.
pub fn push_arguments(ustack_top: usize, args: &Vec<String>) -> (stack: UserStack)
    requires
        stack_size(arg_bytes(args@)) <= ustack_top,
    ensures
        stack.stores@ == argument_stores(
            ustack_top as int,
            arg_bytes(args@),
            args@.len() as int,
        ),
        stack.argv_base == argv_addr(ustack_top as int, arg_bytes(args@)),
        stack.user_sp == word_aligned(ustack_top - stack_size(arg_bytes(args@))),
{
    let ghost texts = arg_bytes(args@);
    let ghost top = ustack_top as int;
    proof {
        lemma_text_size_grows(texts, 0, texts.len() as int);
    }
    let mut user_sp: usize = ustack_top - (args.len() + 1) * WORD;
    let argv_base: usize = user_sp;
    let mut stores: Vec<UserStore> = Vec::new();
    stores.push(UserStore::Word { addr: argv_base + args.len() * WORD, word: 0 });
    assert(stores@ =~= argument_stores(top, texts, 0));
    let mut i: usize = 0;
    while i < args.len()
        invariant
            i <= args@.len(),
            texts == arg_bytes(args@),
            top == ustack_top,
            stack_size(texts) <= top,
            argv_base == argv_addr(top, texts),
            user_sp == argv_base - text_size(texts, i as int),
            stores@ == argument_stores(top, texts, i as int),
        decreases args@.len() - i,
    {
        let text: &[u8] = args[i].as_str().as_bytes();
        proof {
            assert(text@ == texts[i as int]);
            lemma_text_size_grows(texts, i as int, texts.len() as int);
        }
        user_sp = user_sp - (text.len() + 1);
        stores.push(UserStore::Word { addr: argv_base + i * WORD, word: user_sp });
        let ghost front = stores@;
        let mut k: usize = 0;
        while k < text.len()
            invariant
                k <= text@.len(),
                user_sp + text@.len() <= usize::MAX,
                stores@ == front + byte_stores(user_sp as int, text@.take(k as int)),
            decreases text@.len() - k,
        {
            stores.push(UserStore::Byte { addr: user_sp + k, byte: text[k] });
            assert(stores@ =~= front + byte_stores(user_sp as int, text@.take(k + 1)));
            k = k + 1;
        }
        stores.push(UserStore::Byte { addr: user_sp + k, byte: 0 });
        assert(stores@ =~= argument_stores(top, texts, i + 1));
        i = i + 1;
    }
    user_sp = user_sp - user_sp % WORD;
    UserStack { stores, argv_base, user_sp }
}

/// Memory after `bytes` were written from `addr` on.
pub open spec fn written(memory: spec_fn(int) -> u8, addr: int, bytes: Seq<u8>) -> spec_fn(
    int,
) -> u8 {
    |a: int|
        if addr <= a < addr + bytes.len() {
            bytes[a - addr]
        } else {
            memory(a)
        }
}

/// Memory after one store.
pub open spec fn after_store(memory: spec_fn(int) -> u8, store: UserStore) -> spec_fn(int) -> u8 {
    match store {
        UserStore::Word { addr, word } => written(
            memory,
            addr as int,
            spec_u64_to_le_bytes(word as u64),
        ),
        UserStore::Byte { addr, byte } => written(memory, addr as int, seq![byte]),
    }
}

/// Memory after some stores, one after another.
pub open spec fn after_stores(memory: spec_fn(int) -> u8, stores: Seq<UserStore>) -> spec_fn(
    int,
) -> u8
    decreases stores.len(),
{
    if stores.len() == 0 {
        memory
    } else {
        after_store(after_stores(memory, stores.drop_last()), stores.last())
    }
}

/// The `len` bytes at `addr`.
pub open spec fn bytes_at(memory: spec_fn(int) -> u8, addr: int, len: nat) -> Seq<u8> {
    Seq::new(len, |k: int| memory(addr + k))
}

/// The word at `addr`.
pub open spec fn word_at(memory: spec_fn(int) -> u8, addr: int) -> u64 {
    spec_u64_from_le_bytes(bytes_at(memory, addr, WORD as nat))
}

proof fn lemma_after_stores_split(
    memory: spec_fn(int) -> u8,
    first: Seq<UserStore>,
    second: Seq<UserStore>,
)
    ensures
        after_stores(memory, first + second) == after_stores(after_stores(memory, first), second),
    decreases second.len(),
{
    if second.len() == 0 {
        assert(first + second =~= first);
    } else {
        assert((first + second).drop_last() =~= first + second.drop_last());
        assert((first + second).last() == second.last());
        lemma_after_stores_split(memory, first, second.drop_last());
    }
}

proof fn lemma_byte_stores(memory: spec_fn(int) -> u8, addr: int, bytes: Seq<u8>, a: int)
    requires
        0 <= addr,
        addr + bytes.len() <= usize::MAX + 1,
    ensures
        after_stores(memory, byte_stores(addr, bytes))(a) == written(memory, addr, bytes)(a),
    decreases bytes.len(),
{
    if bytes.len() > 0 {
        let stores = byte_stores(addr, bytes);
        assert(stores.drop_last() =~= byte_stores(addr, bytes.drop_last()));
        lemma_byte_stores(memory, addr, bytes.drop_last(), a);
    }
}

/// What memory holds once the first `n` arguments are in place.
spec fn arguments_in_place(
    memory: spec_fn(int) -> u8,
    after: spec_fn(int) -> u8,
    top: int,
    args: Seq<Seq<u8>>,
    n: int,
) -> bool {
    &&& bytes_at(after, argv_addr(top, args) + args.len() * WORD, WORD as nat)
        == spec_u64_to_le_bytes(0)
    &&& forall|i: int|
        0 <= i < n ==> bytes_at(after, argv_addr(top, args) + i * WORD, WORD as nat)
            == spec_u64_to_le_bytes(#[trigger] text_addr(top, args, i) as u64)
    &&& forall|i: int|
        0 <= i < n ==> bytes_at(after, #[trigger] text_addr(top, args, i), args[i].len() + 1)
            == args[i].push(0u8)
    &&& forall|a: int|
        a < argv_addr(top, args) - text_size(args, n) || top <= a ==> #[trigger] after(a)
            == memory(a)
}

proof fn lemma_one_store(memory: spec_fn(int) -> u8, store: UserStore)
    ensures
        after_stores(memory, seq![store]) == after_store(memory, store),
{
    assert(seq![store].drop_last() =~= Seq::<UserStore>::empty());
    assert(after_stores(memory, Seq::<UserStore>::empty()) == memory);
}

proof fn lemma_arguments_in_place(
    memory: spec_fn(int) -> u8,
    top: int,
    args: Seq<Seq<u8>>,
    n: int,
)
    requires
        0 <= n <= args.len(),
        stack_size(args) <= top <= usize::MAX,
    ensures
        arguments_in_place(
            memory,
            after_stores(memory, argument_stores(top, args, n)),
            top,
            args,
            n,
        ),
    decreases n,
{
    let after = after_stores(memory, argument_stores(top, args, n));
    let argv = argv_addr(top, args);
    vstd::bytes::lemma_auto_spec_u64_to_from_le_bytes();
    lemma_text_size_grows(args, 0, args.len() as int);
    if n == 0 {
        let store = UserStore::Word { addr: (argv + args.len() * WORD) as usize, word: 0 };
        lemma_one_store(memory, store);
        assert(bytes_at(after, argv + args.len() * WORD, WORD as nat) =~= spec_u64_to_le_bytes(0));
    } else {
        let i = n - 1;
        let before = after_stores(memory, argument_stores(top, args, i));
        lemma_arguments_in_place(memory, top, args, i);
        lemma_text_size_grows(args, i, args.len() as int);
        let text = text_addr(top, args, i);
        let bytes = args[i].push(0u8);
        let pointer = spec_u64_to_le_bytes(text as u64);
        let store = UserStore::Word { addr: (argv + i * WORD) as usize, word: text as usize };
        let pointed = after_store(before, store);
        assert(pointed == written(before, argv + i * WORD, pointer));
        lemma_after_stores_split(
            memory,
            argument_stores(top, args, i),
            one_argument(top, args, i),
        );
        lemma_after_stores_split(before, seq![store], byte_stores(text, bytes));
        lemma_one_store(before, store);
        assert forall|a: int| #[trigger] after(a) == written(pointed, text, bytes)(a) by {
            lemma_byte_stores(pointed, text, bytes, a);
        }
        assert(bytes_at(after, argv + args.len() * WORD, WORD as nat) =~= bytes_at(
            before,
            argv + args.len() * WORD,
            WORD as nat,
        ));
        assert forall|j: int| 0 <= j < n implies bytes_at(after, argv + j * WORD, WORD as nat)
            == spec_u64_to_le_bytes(#[trigger] text_addr(top, args, j) as u64) by {
            if j < i {
                assert(bytes_at(after, argv + j * WORD, WORD as nat) =~= bytes_at(
                    before,
                    argv + j * WORD,
                    WORD as nat,
                ));
            } else {
                assert(bytes_at(after, argv + j * WORD, WORD as nat) =~= pointer);
            }
        }
        assert forall|j: int| 0 <= j < n implies bytes_at(
            after,
            #[trigger] text_addr(top, args, j),
            args[j].len() + 1,
        ) == args[j].push(0u8) by {
            if j < i {
                lemma_text_size_grows(args, j, i);
                lemma_text_size_grows(args, 0, j);
                assert(bytes_at(after, text_addr(top, args, j), args[j].len() + 1) =~= bytes_at(
                    before,
                    text_addr(top, args, j),
                    args[j].len() + 1,
                ));
            } else {
                assert(bytes_at(after, text, args[i].len() + 1) =~= bytes);
            }
        }
        assert forall|a: int| a < argv - text_size(args, n) || top <= a implies #[trigger] after(a)
            == memory(a) by {
            assert(before(a) == memory(a));
        }
    }
}

/// A program finds its arguments: entry `i` of the vector of argument pointers
/// points to the bytes of argument `i` with a zero byte behind them, and the
/// entry behind the last one is null. The stack pointer is a multiple of the
/// word size and below all of them; memory that is not between it and the top
/// of the stack is as it was.
pub proof fn program_finds_its_arguments(
    memory: spec_fn(int) -> u8,
    top: int,
    args: Seq<Seq<u8>>,
)
    requires
        stack_size(args) <= top <= usize::MAX,
    ensures
        ({
            let after = after_stores(memory, argument_stores(top, args, args.len() as int));
            let argv = argv_addr(top, args);
            let user_sp = word_aligned(top - stack_size(args));
            &&& forall|i: int|
                0 <= i < args.len() ==> word_at(after, argv + i * WORD) == #[trigger] text_addr(
                    top,
                    args,
                    i,
                )
            &&& forall|i: int|
                0 <= i < args.len() ==> bytes_at(
                    after,
                    #[trigger] text_addr(top, args, i),
                    args[i].len() + 1,
                ) == args[i].push(0u8)
            &&& word_at(after, argv + args.len() * WORD) == 0
            &&& user_sp % (WORD as int) == 0
            &&& 0 <= user_sp <= argv
            &&& forall|i: int|
                0 <= i < args.len() ==> user_sp <= #[trigger] text_addr(top, args, i) < argv
            &&& forall|a: int| a < user_sp || top <= a ==> #[trigger] after(a) == memory(a)
        }),
{
    let n = args.len() as int;
    lemma_arguments_in_place(memory, top, args, n);
    vstd::bytes::lemma_auto_spec_u64_to_from_le_bytes();
    lemma_text_size_grows(args, 0, n);
    assert forall|i: int| 0 <= i < args.len() implies {
        &&& 0 <= #[trigger] text_addr(top, args, i) < argv_addr(top, args)
        &&& top - stack_size(args) <= text_addr(top, args, i)
    } by {
        lemma_text_size_grows(args, i, n);
        lemma_text_size_grows(args, 0, i);
    }
    let after = after_stores(memory, argument_stores(top, args, n));
    assert forall|i: int| 0 <= i < args.len() implies word_at(
        after,
        argv_addr(top, args) + i * WORD,
    ) == #[trigger] text_addr(top, args, i) by {}
}

/// The bytes of an argument are those of its UTF-8 encoding, all of them.
pub proof fn argument_bytes_are_its_encoding(args: Seq<String>, i: int)
    requires
        0 <= i < args.len(),
    ensures
        arg_bytes(args).len() == args.len(),
        arg_bytes(args)[i] == encode_utf8(args[i]@),
{
}

proof fn lemma_text_size_of_prefix(args: Seq<Seq<u8>>, text: Seq<u8>, n: int)
    requires
        0 <= n <= args.len(),
    ensures
        text_size(args.push(text), n) == text_size(args, n),
    decreases n,
{
    if n > 0 {
        lemma_text_size_of_prefix(args, text, n - 1);
    }
}

/// The room on the stack: eight bytes for the null pointer, and for every argument
/// its pointer, its bytes and a zero byte.
pub proof fn every_argument_has_its_room(args: Seq<Seq<u8>>, text: Seq<u8>)
    ensures
        stack_size(Seq::empty()) == 8,
        stack_size(args.push(text)) == stack_size(args) + 8 + text.len() + 1,
{
    let more = args.push(text);
    lemma_text_size_of_prefix(args, text, args.len() as int);
    assert(text_size(more, more.len() as int) == text_size(more, more.len() - 1) + text.len() + 1);
}

/// The arguments lie below the vector of pointers without a gap: the first one ends
/// where the vector starts, and each other one where the one before it starts.
pub proof fn arguments_lie_side_by_side(top: int, args: Seq<Seq<u8>>, i: int)
    requires
        0 <= i < args.len(),
    ensures
        argv_addr(top, args) + 8 * (args.len() + 1) == top,
        i == 0 ==> text_addr(top, args, i) + args[i].len() + 1 == argv_addr(top, args),
        i > 0 ==> text_addr(top, args, i) + args[i].len() + 1 == text_addr(top, args, i - 1),
        text_addr(top, args, args.len() - 1) == top - stack_size(args),
{
    assert(text_size(args, 0) == 0);
}

/// Rounding down gives the nearest multiple of eight that is not above.
pub proof fn rounding_stays_near(addr: int)
    ensures
        word_aligned(addr) % 8 == 0,
        word_aligned(addr) <= addr < word_aligned(addr) + 8,
{
}

/// The stores come in order: the null pointer first, and then for every argument its
/// pointer, its bytes upwards, and a zero byte.
pub proof fn stores_come_in_order(top: int, args: Seq<Seq<u8>>, n: int)
    requires
        0 <= n < args.len(),
        stack_size(args) <= top <= usize::MAX,
    ensures
        ({
            let argv = argv_addr(top, args);
            let text = text_addr(top, args, n);
            let first = argument_stores(top, args, 0);
            let before = argument_stores(top, args, n);
            let after = argument_stores(top, args, n + 1);
            let start = before.len() as int;
            &&& first.len() == 1
            &&& first[0] matches UserStore::Word { addr, word } && addr == argv + 8 * args.len()
                && word == 0
            &&& after.len() == start + args[n].len() + 2
            &&& forall|k: int| 0 <= k < start ==> #[trigger] after[k] == before[k]
            &&& after[start] matches UserStore::Word { addr, word } && addr == argv + 8 * n && word
                == text
            &&& forall|k: int|
                0 <= k < args[n].len() ==> (#[trigger] after[start + 1 + k] matches
                    UserStore::Byte { addr, byte } && addr == text + k && byte == args[n][k])
            &&& after[after.len() - 1] matches UserStore::Byte { addr, byte } && addr == text
                + args[n].len() && byte == 0
        }),
{
    lemma_text_size_grows(args, 0, n);
    lemma_text_size_grows(args, n, args.len() as int);
    let before = argument_stores(top, args, n);
    let start = before.len() as int;
    assert(argument_stores(top, args, n + 1) =~= before + one_argument(top, args, n));
    assert forall|k: int| 0 <= k < args[n].len() implies {
        let store = #[trigger] argument_stores(top, args, n + 1)[start + 1 + k];
        store == UserStore::Byte {
            addr: (text_addr(top, args, n) + k) as usize,
            byte: args[n][k],
        }
    } by {
        assert(one_argument(top, args, n)[1 + k] == byte_stores(
            text_addr(top, args, n),
            args[n].push(0u8),
        )[k]);
    }
}

/// What stores do to memory: a byte store changes one byte, a word store eight, the
/// lowest byte first; all other bytes stay.
pub proof fn stores_change_what_they_name(
    memory: spec_fn(int) -> u8,
    stores: Seq<UserStore>,
    addr: usize,
    byte: u8,
    word: usize,
    a: int,
)
    ensures
        after_stores(memory, Seq::empty())(a) == memory(a),
        after_stores(memory, stores.push(UserStore::Byte { addr, byte }))(a) == (if a == addr {
            byte
        } else {
            after_stores(memory, stores)(a)
        }),
        after_stores(memory, stores.push(UserStore::Word { addr, word }))(a) == (if addr <= a < addr
            + 8 {
            spec_u64_to_le_bytes(word as u64)[a - addr]
        } else {
            after_stores(memory, stores)(a)
        }),
{
    vstd::bytes::lemma_auto_spec_u64_to_from_le_bytes();
    assert(stores.push(UserStore::Byte { addr, byte }).drop_last() =~= stores);
    assert(stores.push(UserStore::Word { addr, word }).drop_last() =~= stores);
}

/// Reading memory gives the bytes that are there, and a word is eight of them, the
/// lowest byte first.
pub proof fn reads_give_what_is_there(memory: spec_fn(int) -> u8, addr: int, len: nat)
    ensures
        bytes_at(memory, addr, len).len() == len,
        forall|k: int| 0 <= k < len ==> #[trigger] bytes_at(memory, addr, len)[k] == memory(
            addr + k,
        ),
        word_at(memory, addr) == spec_u64_from_le_bytes(Seq::new(8, |k: int| memory(addr + k))),
{
    assert(bytes_at(memory, addr, 8) =~= Seq::new(8, |k: int| memory(addr + k)));
}

/// A program finds the strings that it was started with: entry `i` of the vector of
/// pointers leads to the UTF-8 encoding of argument `i`, all of its bytes, and a zero
/// byte behind them. The arguments end below the vector, and the stack pointer is
/// below them all.
#[verifier::spinoff_prover]
pub proof fn program_finds_its_strings(memory: spec_fn(int) -> u8, top: int, args: Seq<String>)
    requires
        stack_size(arg_bytes(args)) <= top <= usize::MAX,
    ensures
        ({
            let texts = arg_bytes(args);
            let after = after_stores(memory, argument_stores(top, texts, args.len() as int));
            let argv = argv_addr(top, texts);
            let user_sp = word_aligned(top - stack_size(texts));
            &&& argv == top - 8 * (args.len() + 1)
            &&& word_at(after, argv + 8 * args.len()) == 0
            &&& forall|i: int, k: int|
                0 <= i < args.len() && 0 <= k < encode_utf8(args[i]@).len() ==> after(
                    word_at(after, argv + 8 * i) + k,
                ) == #[trigger] encode_utf8(args[i]@)[k]
            &&& forall|i: int|
                0 <= i < args.len() ==> {
                    let addr = word_at(after, argv + 8 * i) as int;
                    let len = encode_utf8(#[trigger] args[i]@).len();
                    &&& after(addr + len) == 0
                    &&& user_sp <= addr
                    &&& addr + len < argv
                }
            &&& forall|a: int| a < user_sp || top <= a ==> #[trigger] after(a) == memory(a)
        }),
{
    let texts = arg_bytes(args);
    let n = texts.len() as int;
    let after = after_stores(memory, argument_stores(top, texts, args.len() as int));
    let argv = argv_addr(top, texts);
    let user_sp = word_aligned(top - stack_size(texts));
    program_finds_its_arguments(memory, top, texts);
    assert(n == args.len());
    assert(word_at(after, argv + 8 * args.len()) == 0);
    assert forall|i: int| 0 <= i < args.len() implies {
        let addr = word_at(after, argv + 8 * i) as int;
        let bytes = encode_utf8(#[trigger] args[i]@);
        &&& bytes_at(after, addr, bytes.len() + 1) == bytes.push(0u8)
        &&& user_sp <= addr
        &&& addr + bytes.len() < argv
    } by {
        assert(texts[i] == encode_utf8(args[i]@));
        assert(word_at(after, argv + i * WORD) == text_addr(top, texts, i));
        lemma_text_size_grows(texts, i, n);
        lemma_text_size_grows(texts, 0, i);
    }
    assert forall|i: int, k: int|
        0 <= i < args.len() && 0 <= k < encode_utf8(args[i]@).len() implies after(
        word_at(after, argv + 8 * i) + k,
    ) == #[trigger] encode_utf8(args[i]@)[k] by {
        let addr = word_at(after, argv + 8 * i) as int;
        let bytes = encode_utf8(args[i]@);
        assert(bytes_at(after, addr, bytes.len() + 1)[k] == bytes.push(0u8)[k]);
    }
    assert forall|i: int| 0 <= i < args.len() implies {
        let addr = word_at(after, argv + 8 * i) as int;
        let len = encode_utf8(#[trigger] args[i]@).len();
        &&& after(addr + len) == 0
        &&& user_sp <= addr
        &&& addr + len < argv
    } by {
        let addr = word_at(after, argv + 8 * i) as int;
        let bytes = encode_utf8(args[i]@);
        let len = bytes.len() as int;
        assert(bytes_at(after, addr, bytes.len() + 1)[len] == bytes.push(0u8)[len]);
    }
    assert(forall|a: int| a < user_sp || top <= a ==> #[trigger] after(a) == memory(a));
}

} // verus!
