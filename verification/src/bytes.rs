//! Machine words and other unsigned integers as bytes.

use vstd::arithmetic::power::*;
use vstd::prelude::*;

verus! {

/// The order in which the bytes of an integer stand in memory.
#[derive(Clone, Copy, Debug, PartialEq, Eq, Structural)]
pub enum ByteOrder {
    /// Least significant byte first.
    Little,
    /// Most significant byte first.
    Big,
}

/// The `n` low bytes of `x`, least significant first.
pub open spec fn le_bytes(x: nat, n: nat) -> Seq<u8>
    decreases n,
{
    if n == 0 {
        Seq::empty()
    } else {
        seq![(x % 256) as u8] + le_bytes(x / 256, (n - 1) as nat)
    }
}

/// The integer that the bytes stand for, least significant first.
pub open spec fn le_value(bytes: Seq<u8>) -> nat
    decreases bytes.len(),
{
    if bytes.len() == 0 {
        0
    } else {
        bytes[0] as nat + 256 * le_value(bytes.skip(1))
    }
}

/// The bytes of `x` in the given order.
pub open spec fn ordered_bytes(x: nat, n: nat, order: ByteOrder) -> Seq<u8> {
    match order {
        ByteOrder::Little => le_bytes(x, n),
        ByteOrder::Big => le_bytes(x, n).reverse(),
    }
}

/// The integer that the bytes stand for in the given order.
pub open spec fn ordered_value(bytes: Seq<u8>, order: ByteOrder) -> nat {
    match order {
        ByteOrder::Little => le_value(bytes),
        ByteOrder::Big => le_value(bytes.reverse()),
    }
}

pub proof fn lemma_le_bytes_len(x: nat, n: nat)
    ensures
        le_bytes(x, n).len() == n,
    decreases n,
{
    if n > 0 {
        lemma_le_bytes_len(x / 256, (n - 1) as nat);
    }
}

/// `n` bytes hold the integers below the `n`-th power of 256.
pub proof fn lemma_le_value_bound(bytes: Seq<u8>)
    ensures
        le_value(bytes) < pow(256, bytes.len()),
    decreases bytes.len(),
{
    if bytes.len() == 0 {
        lemma_pow0(256);
    } else {
        let n = bytes.len();
        lemma_le_value_bound(bytes.skip(1));
        lemma_pow1(256);
        lemma_pow_adds(256, 1, (n - 1) as nat);
    }
}

/// Reading back the bytes of an integer that fits gives the integer.
pub proof fn lemma_le_value_of_bytes(x: nat, n: nat)
    requires
        x < pow(256, n),
    ensures
        le_value(le_bytes(x, n)) == x,
    decreases n,
{
    if n == 0 {
        lemma_pow0(256);
    } else {
        lemma_pow1(256);
        lemma_pow_adds(256, 1, (n - 1) as nat);
        let p = pow(256, (n - 1) as nat);
        assert(pow(256, n) == 256 * p);
        assert(x / 256 < p);
        lemma_le_value_of_bytes(x / 256, (n - 1) as nat);
        assert(le_bytes(x, n).skip(1) =~= le_bytes(x / 256, (n - 1) as nat));
    }
}

/// Writing out the integer that some bytes stand for gives the bytes.
pub proof fn lemma_le_bytes_of_value(bytes: Seq<u8>)
    ensures
        le_bytes(le_value(bytes), bytes.len()) == bytes,
    decreases bytes.len(),
{
    if bytes.len() > 0 {
        let rest = bytes.skip(1);
        lemma_le_bytes_of_value(rest);
        let x = le_value(bytes);
        assert(x % 256 == bytes[0] as nat);
        assert(x / 256 == le_value(rest));
        assert(le_bytes(x, bytes.len()) =~= bytes);
    } else {
        assert(le_bytes(le_value(bytes), 0) =~= bytes);
    }
}

/// Reading back the bytes of an integer that fits gives the integer, in either order.
pub proof fn lemma_ordered_value_of_bytes(x: nat, n: nat, order: ByteOrder)
    requires
        x < pow(256, n),
    ensures
        ordered_value(ordered_bytes(x, n, order), order) == x,
        ordered_bytes(x, n, order).len() == n,
{
    lemma_le_bytes_len(x, n);
    lemma_le_value_of_bytes(x, n);
    assert(le_bytes(x, n).reverse().reverse() =~= le_bytes(x, n));
}

/// The number of bytes in a machine word.
pub open spec fn word_size() -> nat {
    (usize::BITS / 8) as nat
}

/// A machine word fits in its bytes.
pub proof fn lemma_word_fits(x: usize)
    ensures
        (x as nat) < pow(256, word_size()),
        word_size() == 4 || word_size() == 8,
{
    broadcast use vstd::layout::layout_of_primitives;

    vstd::layout::unsigned_int_max_values();
    assert(word_size() == vstd::layout::size_of::<usize>());
}

/// Appends the bytes of `word` to `out`.
pub fn push_word(out: &mut Vec<u8>, word: usize, order: ByteOrder)
    ensures
        final(out)@ == old(out)@ + ordered_bytes(word as nat, word_size(), order),
{
    let size: usize = (usize::BITS / 8) as usize;
    proof {
        lemma_word_fits(word);
    }
    let mut digits: Vec<u8> = Vec::new();
    let mut rest: usize = word;
    let mut i: usize = 0;
    while i < size
        invariant
            i <= size,
            size == word_size(),
            digits@.len() == i,
            le_bytes(word as nat, size as nat) == digits@ + le_bytes(
                rest as nat,
                (size - i) as nat,
            ),
        decreases size - i,
    {
        let ghost before = digits@;
        let ghost tail = le_bytes(rest as nat, (size - i) as nat);
        digits.push((rest % 256) as u8);
        rest = rest / 256;
        i += 1;
        proof {
            assert(before + tail =~= digits@ + le_bytes(rest as nat, (size - i) as nat));
        }
    }
    assert(le_bytes(word as nat, size as nat) =~= digits@);
    match order {
        ByteOrder::Little => {
            out.append(&mut digits);
        },
        ByteOrder::Big => {
            let ghost start = out@;
            let mut j: usize = size;
            while j > 0
                invariant
                    j <= size == digits@.len(),
                    out@ == start + digits@.skip(j as int).reverse(),
                decreases j,
            {
                j -= 1;
                assert(digits@.skip(j as int).reverse() =~= digits@.skip(j + 1).reverse().push(
                    digits@[j as int],
                ));
                out.push(digits[j]);
            }
            assert(digits@.skip(0) =~= digits@);
        },
    }
}

/// Reads the word whose bytes begin at `start`.
pub fn read_word(bytes: &[u8], start: usize, order: ByteOrder) -> (word: usize)
    requires
        start + word_size() <= bytes@.len(),
    ensures
        word as nat == ordered_value(
            bytes@.subrange(start as int, start + word_size()),
            order,
        ),
{
    let size: usize = (usize::BITS / 8) as usize;
    let len: usize = bytes.len();
    let ghost field = bytes@.subrange(start as int, start + word_size());
    let ghost digits = match order {
        ByteOrder::Little => field,
        ByteOrder::Big => field.reverse(),
    };
    let mut word: usize = 0;
    let mut i: usize = size;
    proof {
        lemma_word_fits(0);
        assert(digits.skip(size as int).len() == 0);
    }
    while i > 0
        invariant
            i <= size == word_size() == digits.len(),
            start + size <= len == bytes@.len(),
            field == bytes@.subrange(start as int, start + word_size()),
            order is Little ==> digits == field,
            order is Big ==> digits == field.reverse(),
            word as nat == le_value(digits.skip(i as int)),
        decreases i,
    {
        let at: usize = match order {
            ByteOrder::Little => i - 1,
            ByteOrder::Big => size - i,
        };
        proof {
            lemma_word_value_fits(digits, i as int - 1);
            assert(digits.skip(i as int - 1).skip(1) =~= digits.skip(i as int));
            assert(digits.skip(i as int - 1)[0] == digits[i as int - 1]);
            assert(bytes@[start + at] == digits[i as int - 1]);
        }
        word = word * 256 + bytes[start + at] as usize;
        i -= 1;
    }
    assert(digits.skip(0) =~= digits);
    word
}

/// The upper bytes of a word stand for no more than a word holds.
proof fn lemma_word_value_fits(digits: Seq<u8>, k: int)
    requires
        digits.len() == word_size(),
        0 <= k <= digits.len(),
    ensures
        le_value(digits.skip(k)) <= usize::MAX,
    decreases k,
{
    broadcast use vstd::layout::layout_of_primitives;

    vstd::layout::unsigned_int_max_values();
    assert(word_size() == vstd::layout::size_of::<usize>());
    let rest = digits.skip(k);
    lemma_le_value_bound(rest);
    lemma_pow_increases(256, rest.len(), word_size());
}

/// The bytes of `std::primitive::u16::to_ne_bytes`: those of `x`, in the order that the
/// machine keeps them in memory.
#[verifier::external_body]
fn native_bytes(x: u16) -> (bytes: [u8; 2])
    ensures
        exists|order: ByteOrder| bytes@ == #[trigger] ordered_bytes(x as nat, 2, order),
{
    x.to_ne_bytes()
}

/// The byte order of the machine: the one that [find_byte_order] finds in the bytes of the
/// number one. The machine decides which it is, so that nothing is promised of it.
pub(crate) fn native_byte_order() -> (order: ByteOrder) {
    find_byte_order(native_bytes(1))
}

/// The order in which bytes are those of the number one. Bytes that are those of the number
/// one in neither order count as most significant first.
pub fn find_byte_order(bytes: [u8; 2]) -> (order: ByteOrder)
    ensures
        order == if bytes@ == ordered_bytes(1, 2, ByteOrder::Little) {
            ByteOrder::Little
        } else {
            ByteOrder::Big
        },
        forall|stored: ByteOrder|
            bytes@ == #[trigger] ordered_bytes(1, 2, stored) ==> order == stored,
{
    proof {
        reveal_with_fuel(le_bytes, 3);
        assert(le_bytes(1, 2) =~= seq![1u8, 0u8]);
        assert(le_bytes(1, 2).reverse() =~= seq![0u8, 1u8]);
    }
    if bytes[0] == 1 && bytes[1] == 0 {
        assert(bytes@ =~= seq![1u8, 0u8]);
        ByteOrder::Little
    } else {
        ByteOrder::Big
    }
}

/// Bytes, least significant first, in the given order, and the other way round.
pub open spec fn reordered(bytes: Seq<u8>, order: ByteOrder) -> Seq<u8> {
    match order {
        ByteOrder::Little => bytes,
        ByteOrder::Big => bytes.reverse(),
    }
}

/// Bytes, least significant first, in the given order, and the other way round.
pub fn reorder(bytes: &[u8], order: ByteOrder) -> (r: Vec<u8>)
    ensures
        r@ == reordered(bytes@, order),
{
    let n: usize = bytes.len();
    let mut out: Vec<u8> = Vec::new();
    let mut i: usize = 0;
    while i < n
        invariant
            i <= n == bytes@.len(),
            out@ == reordered(bytes@, order).take(i as int),
        decreases n - i,
    {
        let at: usize = match order {
            ByteOrder::Little => i,
            ByteOrder::Big => n - 1 - i,
        };
        out.push(bytes[at]);
        i += 1;
        assert(out@ =~= reordered(bytes@, order).take(i as int));
    }
    assert(out@ =~= reordered(bytes@, order));
    out
}

/// The bytes of an integer that fits in `n` of them.
pub fn write_uint(x: u64, n: usize, order: ByteOrder) -> (r: Vec<u8>)
    ensures
        r@ == ordered_bytes(x as nat, n as nat, order),
{
    let mut digits: Vec<u8> = Vec::new();
    let mut rest: u64 = x;
    let mut i: usize = 0;
    assert(digits@ + le_bytes(x as nat, n as nat) =~= le_bytes(x as nat, n as nat));
    while i < n
        invariant
            i <= n,
            digits@.len() == i,
            le_bytes(x as nat, n as nat) == digits@ + le_bytes(rest as nat, (n - i) as nat),
        decreases n - i,
    {
        let ghost before = digits@;
        let ghost tail = le_bytes(rest as nat, (n - i) as nat);
        digits.push((rest % 256) as u8);
        rest = rest / 256;
        i += 1;
        proof {
            assert(before + tail =~= digits@ + le_bytes(rest as nat, (n - i) as nat));
        }
    }
    assert(le_bytes(x as nat, n as nat) =~= digits@);
    match order {
        ByteOrder::Little => digits,
        ByteOrder::Big => {
            let mut reversed: Vec<u8> = Vec::new();
            let mut j: usize = n;
            assert(digits@.skip(n as int).reverse() =~= Seq::<u8>::empty());
            while j > 0
                invariant
                    j <= n == digits@.len(),
                    reversed@ == digits@.skip(j as int).reverse(),
                decreases j,
            {
                j -= 1;
                reversed.push(digits[j]);
                assert(reversed@ =~= digits@.skip(j as int).reverse());
            }
            assert(digits@.skip(0) =~= digits@);
            reversed
        },
    }
}

/// The integer that at most eight bytes stand for.
pub fn read_uint(bytes: &[u8], order: ByteOrder) -> (r: u64)
    requires
        bytes@.len() <= 8,
    ensures
        r == ordered_value(bytes@, order),
{
    let n: usize = bytes.len();
    let ghost digits = match order {
        ByteOrder::Little => bytes@,
        ByteOrder::Big => bytes@.reverse(),
    };
    let mut value: u64 = 0;
    let mut i: usize = n;
    assert(digits.skip(n as int).len() == 0);
    while i > 0
        invariant
            i <= n == bytes@.len() == digits.len(),
            n <= 8,
            order is Little ==> digits == bytes@,
            order is Big ==> digits == bytes@.reverse(),
            value == le_value(digits.skip(i as int)),
        decreases i,
    {
        let at: usize = match order {
            ByteOrder::Little => i - 1,
            ByteOrder::Big => n - i,
        };
        proof {
            let rest = digits.skip(i as int - 1);
            lemma_le_value_bound(rest);
            lemma_pow_increases(256, rest.len(), 8);
            lemma_pow_eight();
            assert(rest.skip(1) =~= digits.skip(i as int));
            assert(rest[0] == digits[i as int - 1]);
            assert(bytes@[at as int] == digits[i as int - 1]);
        }
        value = value * 256 + bytes[at] as u64;
        i -= 1;
    }
    assert(digits.skip(0) =~= digits);
    value
}

/// Eight bytes hold what 64 bits hold.
pub proof fn lemma_pow_eight()
    ensures
        pow(256, 8) == u64::MAX + 1,
        pow(256, 4) == u32::MAX + 1,
        pow(256, 2) == u16::MAX + 1,
{
    reveal_with_fuel(pow, 9);
    assert(pow(256, 2) == 65536);
    assert(pow(256, 4) == 65536 * 65536);
    assert(pow(256, 8) == 65536 * 65536 * 65536 * 65536);
}

/// The byte that counts least comes first in one order and last in the other, and the rest of the
/// bytes stand for the rest of the number.
pub proof fn law_byte_order(bytes: Seq<u8>)
    requires
        bytes.len() > 0,
    ensures
        ordered_value(bytes, ByteOrder::Little) == bytes[0] + 256 * ordered_value(
            bytes.skip(1),
            ByteOrder::Little,
        ),
        ordered_value(bytes, ByteOrder::Big) == bytes.last() + 256 * ordered_value(
            bytes.drop_last(),
            ByteOrder::Big,
        ),
        ordered_value(Seq::empty(), ByteOrder::Little) == 0,
        ordered_value(Seq::empty(), ByteOrder::Big) == 0,
{
    assert(bytes.reverse().skip(1) =~= bytes.drop_last().reverse());
    assert(Seq::<u8>::empty().reverse() =~= Seq::<u8>::empty());
}

/// The bytes of a number that they can hold stand for it, and are as many as was asked for.
pub proof fn law_ordered_bytes(x: nat, n: nat, order: ByteOrder)
    requires
        x < pow(256, n),
    ensures
        ordered_bytes(x, n, order).len() == n,
        ordered_value(ordered_bytes(x, n, order), order) == x,
{
    lemma_le_bytes_len(x, n);
    lemma_le_value_of_bytes(x, n);
    let plain = le_bytes(x, n);
    assert(plain.reverse().reverse() =~= plain);
}

} // verus!
