//! Index arithmetic of the radix-2 transform: bit reversal of an index and
//! the bit-reversal permutation that precedes the butterfly stages.

use vstd::arithmetic::power2::{lemma2_to64, lemma_pow2_pos, lemma_pow2_strictly_increases, lemma_pow2_unfold, pow2};
use vstd::prelude::*;

verus! {

/// The low `bits` binary digits of `x`, written in the opposite order: digit
/// 0 of `x` becomes digit `bits - 1` of the result.
pub open spec fn reversed_bits(x: nat, bits: nat) -> nat
    decreases bits,
{
    if bits == 0 {
        0
    } else {
        (x % 2) * pow2((bits - 1) as nat) + reversed_bits(x / 2, (bits - 1) as nat)
    }
}

/// How many times 2 divides a positive number.
pub open spec fn trailing_zero_count(n: nat) -> nat
    decreases n,
{
    if n == 0 || n % 2 == 1 {
        0
    } else {
        1 + trailing_zero_count(n / 2)
    }
}

/// A reversed index fits in the same number of digits.
pub proof fn lemma_reversed_bits_bound(x: nat, bits: nat)
    ensures
        reversed_bits(x, bits) < pow2(bits),
    decreases bits,
{
    lemma_pow2_pos(bits);
    if bits > 0 {
        lemma_reversed_bits_bound(x / 2, (bits - 1) as nat);
        lemma_pow2_unfold(bits);
        let p = pow2((bits - 1) as nat);
        assert((x % 2) * p <= p) by (nonlinear_arith)
            requires
                x % 2 <= 1,
        ;
    }
}

/// Reversal only reads the low `bits` digits.
pub proof fn lemma_reversed_bits_ignores_high(x: nat, bits: nat)
    ensures
        reversed_bits(x, bits) == reversed_bits(x % pow2(bits), bits),
    decreases bits,
{
    lemma_pow2_pos(bits);
    if bits > 0 {
        let p = pow2((bits - 1) as nat);
        lemma_pow2_pos((bits - 1) as nat);
        lemma_pow2_unfold(bits);
        let y = x % (2 * p);
        assert(y % 2 == x % 2 && y / 2 == (x / 2) % p) by {
            vstd::arithmetic::div_mod::lemma_fundamental_div_mod(x as int, 2 * p as int);
            let q = x as int / (2 * p as int);
            assert(x == 2 * (p * q) + y) by (nonlinear_arith)
                requires
                    x == (2 * p) * q + y,
            ;
            vstd::arithmetic::div_mod::lemma_fundamental_div_mod(y as int, 2);
            let h = y / 2;
            assert(x == 2 * (p * q + h) + y % 2);
            vstd::arithmetic::div_mod::lemma_fundamental_div_mod_converse(
                x as int,
                2,
                p * q + h,
                (y % 2) as int,
            );
            assert(x / 2 == p * q + h);
            assert(h < p);
            vstd::arithmetic::div_mod::lemma_fundamental_div_mod_converse(
                (x / 2) as int,
                p as int,
                q,
                h as int,
            );
        }
        lemma_reversed_bits_ignores_high(x / 2, (bits - 1) as nat);
        lemma_reversed_bits_ignores_high(y / 2, (bits - 1) as nat);
        vstd::arithmetic::div_mod::lemma_mod_twice((x / 2) as int, p as int);
    } else {
        lemma2_to64();
    }
}

/// Reversing a number whose top digit is `high` and whose lower digits are
/// `low` gives the reversed lower digits, doubled, plus `high`.
proof fn lemma_reversed_top_digit(high: nat, low: nat, bits: nat)
    requires
        bits >= 1,
        high <= 1,
        low < pow2((bits - 1) as nat),
    ensures
        reversed_bits(high * pow2((bits - 1) as nat) + low, bits) == 2 * reversed_bits(
            low,
            (bits - 1) as nat,
        ) + high,
    decreases bits,
{
    let p = pow2((bits - 1) as nat);
    let z = high * p + low;
    if bits == 1 {
        lemma2_to64();
        assert(low == 0);
        assert(z == high) by (nonlinear_arith)
            requires
                z == high * p + low,
                p == 1,
                low == 0,
        ;
        assert(reversed_bits(z / 2, 0) == 0);
        assert(reversed_bits(low, 0) == 0);
    } else {
        let q = pow2((bits - 2) as nat);
        lemma_pow2_unfold((bits - 1) as nat);
        assert(p == 2 * q);
        assert(z == 2 * (high * q) + low) by (nonlinear_arith)
            requires
                z == high * p + low,
                p == 2 * q,
        ;
        vstd::arithmetic::div_mod::lemma_fundamental_div_mod(low as int, 2);
        let l2 = low / 2;
        assert(z == 2 * (high * q + l2) + low % 2);
        vstd::arithmetic::div_mod::lemma_fundamental_div_mod_converse(
            z as int,
            2,
            (high * q + l2) as int,
            (low % 2) as int,
        );
        assert(z / 2 == high * q + l2 && z % 2 == low % 2);
        assert(l2 < q);
        lemma_reversed_top_digit(high, l2, (bits - 1) as nat);
        let r = reversed_bits(l2, (bits - 2) as nat);
        assert(reversed_bits(z, bits) == (low % 2) * p + (2 * r + high));
        assert(reversed_bits(low, (bits - 1) as nat) == (low % 2) * q + r);
        assert((low % 2) * p == 2 * ((low % 2) * q)) by (nonlinear_arith)
            requires
                p == 2 * q,
        ;
    }
}

/// Reversing twice gives the index back.
pub proof fn lemma_reversed_bits_involution(x: nat, bits: nat)
    requires
        x < pow2(bits),
    ensures
        reversed_bits(reversed_bits(x, bits), bits) == x,
    decreases bits,
{
    if bits == 0 {
        lemma2_to64();
    } else {
        let p = pow2((bits - 1) as nat);
        lemma_pow2_unfold(bits);
        let y = x / 2;
        let low = reversed_bits(y, (bits - 1) as nat);
        lemma_reversed_bits_bound(y, (bits - 1) as nat);
        lemma_reversed_top_digit(x % 2, low, bits);
        lemma_reversed_bits_involution(y, (bits - 1) as nat);
    }
}

/// Two to the number of trailing zeros of a positive number divides it, so it
/// is no larger.
pub proof fn lemma_trailing_zeros_pow2(n: nat)
    requires
        n > 0,
    ensures
        pow2(trailing_zero_count(n)) <= n,
    decreases n,
{
    if n % 2 == 1 {
        lemma2_to64();
    } else {
        lemma_trailing_zeros_pow2(n / 2);
        lemma_pow2_unfold(trailing_zero_count(n));
    }
}

/// A power of two has as many trailing zeros as its exponent.
pub proof fn lemma_trailing_zeros_of_pow2(k: nat)
    ensures
        trailing_zero_count(pow2(k)) == k,
    decreases k,
{
    lemma_pow2_pos(k);
    if k == 0 {
        lemma2_to64();
    } else {
        lemma_pow2_unfold(k);
        lemma_trailing_zeros_of_pow2((k - 1) as nat);
    }
}

/// `n` is a power of two.
pub open spec fn is_power_of_two(n: nat) -> bool {
    exists|k: nat| n == #[trigger] pow2(k)
}

/// A buffer whose length is a power of two is permuted as a whole: the block
/// that the pass works on is the buffer.
pub proof fn lemma_power_of_two_length_is_whole_block(len: nat)
    requires
        is_power_of_two(len),
    ensures
        pow2(trailing_zero_count(len)) == len,
{
    let k = choose|k: nat| len == #[trigger] pow2(k);
    lemma_trailing_zeros_of_pow2(k);
}

/// `usize::next_power_of_two`: the smallest power of two that is not below
/// `n`. Where that power does not fit the machine word the function panics
/// or wraps, which the precondition rules out.
#[verifier::external_body]
fn next_power_of_two(n: usize) -> (size: usize)
    requires
        n <= usize::MAX / 2 + 1,
    ensures
        is_power_of_two(size as nat),
        n <= size,
        forall|k: nat| n <= #[trigger] pow2(k) ==> size <= pow2(k),
{
    n.next_power_of_two()
}

/// The buffer length for a transform of at least `requested` samples: the
/// smallest power of two that is not below `requested`.
pub fn transform_size(requested: usize) -> (size: usize)
    requires
        requested <= usize::MAX / 2 + 1,
    ensures
        is_power_of_two(size as nat),
        requested <= size,
        forall|k: nat| requested <= #[trigger] pow2(k) ==> size <= pow2(k),
        pow2(trailing_zero_count(size as nat)) == size,
{
    let size = next_power_of_two(requested);
    proof {
        lemma_power_of_two_length_is_whole_block(size as nat);
    }
    size
}

/// Reverses the low `bits` binary digits of `x`; higher digits of `x` are
/// dropped.
pub fn reverse_bits(x: usize, bits: u32) -> (result: usize)
    requires
        bits <= usize::BITS,
    ensures
        result == reversed_bits(x as nat, bits as nat),
        result < pow2(bits as nat),
{
    let mut remaining = x;
    let mut result: usize = 0;
    let mut i: u32 = 0;
    proof {
        lemma2_to64();
        vstd::layout::unsigned_int_max_values();
    }
    while i < bits
        invariant
            i <= bits <= usize::BITS,
            result < pow2(i as nat),
            usize::MAX == pow2(usize::BITS as nat) - 1,
            reversed_bits(x as nat, bits as nat) == result * pow2((bits - i) as nat)
                + reversed_bits(remaining as nat, (bits - i) as nat),
        decreases bits - i,
    {
        let bit = remaining & 1;
        let ghost rest = pow2((bits - i - 1) as nat);
        proof {
            lemma2_to64();
            assert(remaining & 1 == remaining % 2) by (bit_vector);
            assert(remaining >> 1 == remaining / 2) by (bit_vector);
            lemma_pow2_unfold((i + 1) as nat);
            lemma_pow2_unfold((bits - i) as nat);
            if i + 1 < usize::BITS {
                lemma_pow2_strictly_increases((i + 1) as nat, usize::BITS as nat);
            }
            assert(2 * result + 1 <= usize::MAX);
            assert(result * pow2(1) <= usize::MAX);
            vstd::bits::lemma_usize_shl_is_mul(result, 1);
            let doubled = result << 1;
            assert(doubled == 2 * result);
            assert(doubled % 2 == 0 && bit <= 1 ==> (doubled | bit) == doubled + bit)
                by (bit_vector);
            assert(result * (2 * rest) + (bit * rest) == (2 * result + bit) * rest)
                by (nonlinear_arith);
        }
        result = (result << 1) | bit;
        remaining >>= 1;
        i += 1;
    }
    proof {
        lemma2_to64();
        assert(result * pow2(0) == result) by (nonlinear_arith)
            requires
                pow2(0) == 1,
        ;
    }
    result
}

/// The sequence after the bit-reversal pass over a buffer whose length has
/// `bits` trailing zeros: below `2^bits` the element at an index comes from
/// the reversed index, the rest stay. For a length that is a power of two
/// that is the whole buffer.
pub open spec fn bit_reversed_order<T>(s: Seq<T>) -> Seq<T> {
    let bits = trailing_zero_count(s.len());
    Seq::new(
        s.len(),
        |i: int|
            if i < pow2(bits) {
                s[reversed_bits(i as nat, bits) as int]
            } else {
                s[i]
            },
    )
}

/// The element at index `p` once the pass has handled every index below
/// `done`: a pair of indices is exchanged as soon as its smaller member has
/// been handled.
spec fn pass_element<T>(s: Seq<T>, bits: nat, done: int, p: int) -> T {
    let q = reversed_bits(p as nat, bits) as int;
    if p < pow2(bits) && (p < done || q < done) {
        s[q]
    } else {
        s[p]
    }
}

/// `usize::trailing_zeros`: the number of zero digits below the lowest one
/// digit, which is how many times 2 divides a positive number; for 0, the
/// width of `usize`.
#[verifier::external_body]
fn trailing_zeros(n: usize) -> (count: u32)
    ensures
        n > 0 ==> count == trailing_zero_count(n as nat),
        n == 0 ==> count == usize::BITS,
{
    n.trailing_zeros()
}

/// The slice method `swap` on a vector: the elements at `i` and `j` change
/// places and nothing else moves. It panics on an index out of bounds, which
/// the precondition rules out.
#[verifier::external_body]
fn swap_elements<T>(data: &mut Vec<T>, i: usize, j: usize)
    requires
        i < old(data)@.len(),
        j < old(data)@.len(),
    ensures
        final(data)@ == old(data)@.update(i as int, old(data)@[j as int]).update(
            j as int,
            old(data)@[i as int],
        ),
{
    data.swap(i, j);
}

/// Exchanging two elements keeps what the sequence holds.
proof fn lemma_swap_keeps_elements<T>(s: Seq<T>, i: int, j: int)
    requires
        0 <= i < s.len(),
        0 <= j < s.len(),
    ensures
        s.update(i, s[j]).update(j, s[i]).to_multiset() == s.to_multiset(),
{
    broadcast use {vstd::multiset::group_multiset_axioms, vstd::multiset::group_multiset_properties};

    let half = s.update(i, s[j]);
    let held = s.to_multiset();
    vstd::seq_lib::to_multiset_update(s, i, s[j]);
    vstd::seq_lib::to_multiset_update(half, j, s[i]);
    vstd::seq_lib::to_multiset_contains(s, s[i]);
    vstd::seq_lib::to_multiset_contains(s, s[j]);
    assert(s.contains(s[i]) && s.contains(s[j]));
    assert(half[j] == s[j]);
    let between = held.insert(s[j]).remove(s[i]);
    assert(half.to_multiset() == between);
    let after = between.insert(s[i]).remove(s[j]);
    assert forall|v: T| after.count(v) == held.count(v) by {
        assert(held.count(s[i]) > 0 && held.count(s[j]) > 0);
        assert(held.insert(s[j]).count(s[i]) > 0);
        assert(between.insert(s[i]).count(s[j]) > 0);
    }
    assert(after =~= held);
}

/// The pass undoes itself: run twice, it leaves every element where it was.
pub proof fn lemma_bit_reversed_order_involution<T>(s: Seq<T>)
    ensures
        bit_reversed_order(bit_reversed_order(s)) == s,
{
    let bits = trailing_zero_count(s.len());
    let once = bit_reversed_order(s);
    let twice = bit_reversed_order(once);
    if s.len() > 0 {
        lemma_trailing_zeros_pow2(s.len());
    }
    assert forall|i: int| 0 <= i < s.len() implies twice[i] == s[i] by {
        if i < pow2(bits) {
            lemma_reversed_bits_bound(i as nat, bits);
            lemma_reversed_bits_involution(i as nat, bits);
        }
    }
    assert(twice =~= s);
}

/// The first pass of the in-place transform: every element moves to the
/// index whose binary digits are those of its own in reverse.
pub fn bit_reverse_permute<T>(data: &mut Vec<T>)
    ensures
        final(data)@ == bit_reversed_order(old(data)@),
        final(data)@.len() == old(data)@.len(),
        final(data)@.to_multiset() == old(data)@.to_multiset(),
{
    let n = data.len();
    if n <= 1 {
        proof {
            lemma2_to64();
            assert(reversed_bits(0, 0) == 0);
            assert(data@ =~= bit_reversed_order(data@));
        }
        return ;
    }
    let bits = trailing_zeros(n);
    let ghost start = data@;
    let ghost width = bits as nat;
    proof {
        lemma_trailing_zeros_pow2(n as nat);
        vstd::layout::unsigned_int_max_values();
        if bits > usize::BITS {
            lemma_pow2_strictly_increases(usize::BITS as nat, width);
        }
    }
    let mut i: usize = 0;
    while i < n
        invariant
            i <= n,
            n == start.len(),
            data@.len() == n,
            width == bits,
            bits <= usize::BITS,
            pow2(width) <= n,
            data@.to_multiset() == start.to_multiset(),
            forall|p: int| 0 <= p < n ==> data@[p] == #[trigger] pass_element(start, width, i as int, p),
        decreases n - i,
    {
        let j = reverse_bits(i, bits);
        let ghost before = data@;
        if i < j {
            swap_elements(data, i, j);
            proof {
                lemma_swap_keeps_elements(before, i as int, j as int);
            }
        }
        proof {
            lemma_reversed_bits_bound(i as nat, width);
            if i < pow2(width) {
                lemma_reversed_bits_involution(i as nat, width);
            }
            assert forall|p: int| 0 <= p < n implies data@[p] == #[trigger] pass_element(
                start,
                width,
                i + 1,
                p,
            ) by {
                assert(before[p] == pass_element(start, width, i as int, p));
                assert(before[i as int] == pass_element(start, width, i as int, i as int));
                assert(before[j as int] == pass_element(start, width, i as int, j as int));
                lemma_reversed_bits_bound(p as nat, width);
                if p < pow2(width) {
                    lemma_reversed_bits_involution(p as nat, width);
                }
            }
        }
        i += 1;
    }
    proof {
        assert forall|p: int| 0 <= p < n implies data@[p] == bit_reversed_order(start)[p] by {
            assert(data@[p] == pass_element(start, width, n as int, p));
            lemma_reversed_bits_bound(p as nat, width);
        }
        assert(data@ =~= bit_reversed_order(start));
    }
}

} // verus!
