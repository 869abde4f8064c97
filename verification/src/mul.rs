//! Multiplication of two states, word by word with carries.
//!
//! Plane 0 of the product holds the words of `a * b` modulo `2^(32 * word_len)`. From the
//! lowest bit on which either input is not a valid `0` or `1`, every bit is undefined.
use vstd::prelude::*;
use vstd::std_specs::bits::u32_trailing_zeros;
use crate::logic_state::LogicState;
use crate::word::{bit_of, group_word_bits};
use crate::shift::lemma_bit_shl;

verus! {

broadcast use {LogicState::lemma_plane_len, group_word_bits};

/// `2^(32 * k)`
pub open spec fn word_base(k: nat) -> int
    decreases k,
{
    if k == 0 {
        1
    } else {
        0x1_0000_0000 * word_base((k - 1) as nat)
    }
}

/// The number held by the words `0..n` of a plane, least significant first
pub open spec fn words_value(p: Seq<u32>, n: nat) -> int
    decreases n,
{
    if n == 0 {
        0
    } else {
        words_value(p, (n - 1) as nat) + p[n - 1] * word_base((n - 1) as nat)
    }
}

/// The number held by the words `lo..hi` of a plane, word `lo` least significant
pub open spec fn words_upper(p: Seq<u32>, lo: nat, hi: nat) -> int
    decreases hi,
{
    if hi <= lo {
        0
    } else {
        words_upper(p, lo, (hi - 1) as nat) + p[hi - 1] * word_base((hi - 1 - lo) as nat)
    }
}

/// The sum of the first `n` rows of the schoolbook product of `a` and `b` truncated to `wl`
/// words: row `i` is `a[i] * 2^(32 i)` times the low `wl - i` words of `b`
pub open spec fn row_sum(a: Seq<u32>, b: Seq<u32>, wl: nat, n: nat) -> int
    decreases n,
{
    if n == 0 {
        0
    } else {
        row_sum(a, b, wl, (n - 1) as nat) + a[n - 1] * word_base((n - 1) as nat) * words_value(
            b,
            (wl - (n - 1)) as nat,
        )
    }
}

/// The product of the plane-0 words of `a` and `b`, modulo `2^(32 * word_len)`
pub open spec fn mul_value(a: LogicState, b: LogicState) -> int {
    let wl = a.bit_width().spec_word_len();
    (words_value(a.spec_plane_0(), wl) * words_value(b.spec_plane_0(), wl)) % word_base(wl)
}

/// The words of `mul_value(a, b)`
pub open spec fn mul_product(a: LogicState, b: LogicState) -> Seq<u32> {
    let wl = a.bit_width().spec_word_len();
    choose|p: Seq<u32>| p.len() == wl && words_value(p, wl) == mul_value(a, b)
}

/// The first word at or above `k` on which plane 1 of `a` or `b` has a bit set, or the word
/// length if there is none
pub open spec fn first_invalid(a: LogicState, b: LogicState, k: nat) -> nat
    decreases a.bit_width().spec_word_len() - k,
{
    if k >= a.bit_width().spec_word_len() {
        a.bit_width().spec_word_len()
    } else if (a.spec_plane_1()[k as int] | b.spec_plane_1()[k as int]) != 0 {
        k
    } else {
        first_invalid(a, b, k + 1)
    }
}

/// The bits of a word from its lowest set bit up
pub open spec fn invalid_mask(x: u32) -> u32 {
    if u32_trailing_zeros(x) >= 32 {
        0
    } else {
        (0xffff_ffffu32 << u32_trailing_zeros(x)) as u32
    }
}

/// Word `k` of both planes of the product of `a` and `b`
pub open spec fn mul_word(a: LogicState, b: LogicState, k: int) -> [u32; 2] {
    let first = first_invalid(a, b, 0) as int;
    let prod = mul_product(a, b);
    if k < first {
        [prod[k], 0u32]
    } else if k == first {
        let m = invalid_mask(a.spec_plane_1()[k] | b.spec_plane_1()[k]);
        [prod[k] | m, m]
    } else {
        [0xffff_ffffu32, 0xffff_ffffu32]
    }
}

pub proof fn lemma_word_base_positive(k: nat)
    ensures
        word_base(k) >= 1,
    decreases k,
{
    if k > 0 {
        lemma_word_base_positive((k - 1) as nat);
    }
}

/// `2^(32 i) * 2^(32 j) == 2^(32 (i + j))`
proof fn lemma_word_base_add(i: nat, j: nat)
    ensures
        word_base(i) * word_base(j) == word_base(i + j),
    decreases j,
{
    if j > 0 {
        lemma_word_base_add(i, (j - 1) as nat);
        assert(word_base(i) * word_base(j) == word_base(i) * (0x1_0000_0000 * word_base(
            (j - 1) as nat,
        ))) by {}
        assert(word_base(i) * (0x1_0000_0000 * word_base((j - 1) as nat)) == 0x1_0000_0000 * (
        word_base(i) * word_base((j - 1) as nat))) by (nonlinear_arith);
        assert(word_base(i + j) == 0x1_0000_0000 * word_base((i + j - 1) as nat));
    }
}

/// The number held by `n` words is below `2^(32 n)`
pub proof fn lemma_words_value_bound(p: Seq<u32>, n: nat)
    requires
        n <= p.len(),
    ensures
        0 <= words_value(p, n) < word_base(n),
    decreases n,
{
    if n > 0 {
        lemma_words_value_bound(p, (n - 1) as nat);
        let b = word_base((n - 1) as nat);
        let x = p[n - 1] as int;
        lemma_word_base_positive((n - 1) as nat);
        assert(0 <= x * b <= 0xffff_ffff * b) by (nonlinear_arith)
            requires
                0 <= x <= 0xffff_ffff,
                b >= 1,
        ;
    }
}

/// Replacing word `k` changes the number by the difference times `2^(32 k)`
proof fn lemma_words_value_update(p: Seq<u32>, k: int, x: u32, n: nat)
    requires
        0 <= k < p.len(),
        n <= p.len(),
    ensures
        words_value(p.update(k, x), n) == words_value(p, n) + (if k < n {
            (x - p[k]) * word_base(k as nat)
        } else {
            0
        }),
    decreases n,
{
    if n > 0 {
        lemma_words_value_update(p, k, x, (n - 1) as nat);
        if k == n - 1 {
            assert((x as int) * word_base(k as nat) - p[k] * word_base(k as nat) == (x - p[k])
                * word_base(k as nat)) by (nonlinear_arith);
        }
    }
}

/// Two word sequences holding the same number hold the same words
pub(crate) proof fn lemma_words_value_unique(p: Seq<u32>, q: Seq<u32>, n: nat)
    requires
        n <= p.len(),
        n <= q.len(),
        words_value(p, n) == words_value(q, n),
    ensures
        p.subrange(0, n as int) == q.subrange(0, n as int),
    decreases n,
{
    if n > 0 {
        let m = (n - 1) as nat;
        lemma_words_value_bound(p, m);
        lemma_words_value_bound(q, m);
        let b = word_base(m);
        let x = p[m as int] as int;
        let y = q[m as int] as int;
        let vp = words_value(p, m);
        let vq = words_value(q, m);
        assert(x == y) by (nonlinear_arith)
            requires
                vp + x * b == vq + y * b,
                0 <= vp < b,
                0 <= vq < b,
        ;
        lemma_words_value_unique(p, q, m);
        assert(p.subrange(0, n as int) =~= q.subrange(0, n as int)) by {
            assert forall|i: int| 0 <= i < n implies p[i] == q[i] by {
                if i < m {
                    assert(p.subrange(0, m as int)[i] == q.subrange(0, m as int)[i]);
                }
            }
        }
    }
}

/// The words `0..hi` hold the words `0..lo` plus `2^(32 lo)` times the words `lo..hi`
proof fn lemma_words_split(p: Seq<u32>, lo: nat, hi: nat)
    requires
        lo <= hi <= p.len(),
    ensures
        words_value(p, hi) == words_value(p, lo) + word_base(lo) * words_upper(p, lo, hi),
    decreases hi,
{
    if hi > lo {
        lemma_words_split(p, lo, (hi - 1) as nat);
        lemma_word_base_add(lo, (hi - 1 - lo) as nat);
        let b = word_base(lo);
        let u = words_upper(p, lo, (hi - 1) as nat);
        let x = p[hi - 1] as int;
        let c = word_base((hi - 1 - lo) as nat);
        assert(b * (u + x * c) == b * u + x * (b * c)) by (nonlinear_arith);
    }
}

/// How many times `2^(32 wl)` the truncated rows fall short of the full product
pub open spec fn row_excess(a: Seq<u32>, b: Seq<u32>, wl: nat, n: nat) -> int
    decreases n,
{
    if n == 0 {
        0
    } else {
        row_excess(a, b, wl, (n - 1) as nat) - a[n - 1] * words_upper(b, (wl - (n - 1)) as nat, wl)
    }
}

/// The truncated schoolbook rows add up to the product modulo `2^(32 wl)`
proof fn lemma_row_sum(a: Seq<u32>, b: Seq<u32>, wl: nat, n: nat)
    requires
        n <= wl <= a.len(),
        wl <= b.len(),
    ensures
        row_sum(a, b, wl, n) == words_value(a, n) * words_value(b, wl) + word_base(wl) * row_excess(a, b, wl, n),
    decreases n,
{
    if n > 0 {
        let m = (n - 1) as nat;
        lemma_row_sum(a, b, wl, m);
        let k = row_excess(a, b, wl, m);
        lemma_words_split(b, (wl - m) as nat, wl);
        lemma_word_base_add(m, (wl - m) as nat);
        let x = a[m as int] as int;
        let bm = word_base(m);
        let low = words_value(b, (wl - m) as nat);
        let up = words_upper(b, (wl - m) as nat, wl);
        let top = word_base((wl - m) as nat);
        let va = words_value(a, m);
        let vb = words_value(b, wl);
        let big = word_base(wl);
        let k2 = k - x * up;
        assert(x * bm * vb == x * bm * low + x * bm * top * up) by (nonlinear_arith)
            requires
                vb == low + top * up,
        ;
        assert(x * bm * top * up == x * big * up) by (nonlinear_arith)
            requires
                bm * top == big,
        ;
        assert((va + x * bm) * vb == va * vb + x * bm * vb) by (nonlinear_arith);
        assert(big * k2 == big * k - x * big * up) by (nonlinear_arith)
            requires
                k2 == k - x * up,
        ;
        assert(row_sum(a, b, wl, n) == row_sum(a, b, wl, m) + x * bm * low);
        assert(words_value(a, n) == va + x * bm);
    }
}

/// Multiplies two words and adds two more: `(low, high)` of `a * b + c + d`
fn carrying_mul(a: u32, b: u32, c: u32, d: u32) -> (r: (u32, u32))
    ensures
        r.0 + r.1 * 0x1_0000_0000 == a * b + c + d,
{
    assert((a as u64) * (b as u64) <= 0xffff_fffe_0000_0001u64) by (nonlinear_arith)
        requires
            a <= 0xffff_ffffu32,
            b <= 0xffff_ffffu32,
    ;
    let product: u64 = (a as u64) * (b as u64) + (c as u64) + (d as u64);
    let low = product as u32;
    let high = (product >> 32) as u32;
    assert(low as u64 + (high as u64) * 0x1_0000_0000u64 == product) by (bit_vector)
        requires
            low == product as u32,
            high == (product >> 32u64) as u32,
    ;
    (low, high)
}

/// Plane 0 of the product, before invalid bits are marked
fn product_words(a: &LogicState, b: &LogicState, word_len: usize) -> (r: [u32; 8])
    requires
        a.bit_width() == b.bit_width(),
        word_len == a.bit_width().spec_word_len(),
        word_len <= 8,
    ensures
        words_value(r@, word_len as nat) == mul_value(*a, *b),
{
    let ghost pa = a.spec_plane_0();
    let ghost pb = b.spec_plane_0();
    let ghost wl = word_len as nat;
    let ghost big = word_base(wl);
    proof {
        lemma_word_base_positive(wl);
    }
    let mut p: [u32; 8] = [0, 0, 0, 0, 0, 0, 0, 0];
    proof {
        assert(words_value(p@, 0) == 0);
        lemma_zero_words(p@, wl);
        vstd::arithmetic::div_mod::lemma_small_mod(0, big as nat);
    }
    let mut i_a: usize = 0;
    while i_a < word_len
        invariant
            word_len == wl,
            wl == a.bit_width().spec_word_len(),
            word_len <= 8,
            i_a <= word_len,
            big == word_base(wl),
            big >= 1,
            pa == a.spec_plane_0(),
            pb == b.spec_plane_0(),
            words_value(p@, wl) == row_sum(pa, pb, wl, i_a as nat) % big,
        decreases word_len - i_a,
    {
        let x = a.get_word(i_a)[0];
        let ghost before = words_value(p@, wl);
        let ghost row = x * word_base(i_a as nat);
        let mut carry: u32 = 0;
        let mut i_b: usize = 0;
        while i_b < word_len - i_a
            invariant
                word_len == wl,
                word_len <= 8,
                i_a < word_len,
                i_b <= word_len - i_a,
                pb == b.spec_plane_0(),
                row == x * word_base(i_a as nat),
                words_value(p@, wl) + carry * word_base((i_a + i_b) as nat) == before + row
                    * words_value(pb, i_b as nat),
            decreases word_len - i_a - i_b,
        {
            let i = i_a + i_b;
            let y = b.get_word(i_b)[0];
            let (low, high) = carrying_mul(x, y, carry, p[i]);
            let ghost old_p = p@;
            let ghost old_carry = carry;
            p[i] = low;
            carry = high;
            proof {
                assert(p@ == old_p.update(i as int, low));
                lemma_words_value_update(old_p, i as int, low, wl);
                lemma_word_base_add(i_a as nat, i_b as nat);
                let bi = word_base(i as nat);
                let bb = word_base(i_b as nat);
                let ba = word_base(i_a as nat);
                assert(word_base((i + 1) as nat) == 0x1_0000_0000 * bi);
                assert(words_value(pb, (i_b + 1) as nat) == words_value(pb, i_b as nat) + y * bb);
                let vp = words_value(old_p, wl);
                let vb = words_value(pb, i_b as nat);
                assert(vp + (low - old_p[i as int]) * bi + high * (0x1_0000_0000 * bi) == before
                    + row * (vb + y * bb)) by (nonlinear_arith)
                    requires
                        vp + old_carry * bi == before + row * vb,
                        low + high * 0x1_0000_0000 == x * y + old_carry + old_p[i as int],
                        row == x * ba,
                        ba * bb == bi,
                ;
            }
            i_b = i_b + 1;
        }
        proof {
            let wa = (wl - i_a) as nat;
            lemma_words_value_bound(p@, wl);
            assert(i_a + i_b == wl);
            let total = before + row * words_value(pb, wa);
            let v = words_value(p@, wl);
            assert(v == total - carry * big);
            assert(total == carry * big + v);
            vstd::arithmetic::div_mod::lemma_fundamental_div_mod_converse(total, big, carry as int, v);
            let s = row_sum(pa, pb, wl, i_a as nat);
            let term = row * words_value(pb, wa);
            assert(row_sum(pa, pb, wl, (i_a + 1) as nat) == s + term);
            vstd::arithmetic::div_mod::lemma_add_mod_noop_right(term, s, big);
            assert(total == term + s % big);
        }
        i_a = i_a + 1;
    }
    proof {
        LogicState::lemma_plane_len(*a);
        LogicState::lemma_plane_len(*b);
        assert(pa.len() == 8 && pb.len() == 8);
        lemma_row_sum(pa, pb, wl, wl);
        let k = row_excess(pa, pb, wl, wl);
        vstd::arithmetic::div_mod::lemma_mod_multiples_vanish(
            k,
            words_value(pa, wl) * words_value(pb, wl),
            big,
        );
    }
    p
}

/// Words that are all `0` hold the number `0`
pub(crate) proof fn lemma_zero_words(p: Seq<u32>, n: nat)
    requires
        n <= p.len(),
        forall|i: int| 0 <= i < n ==> p[i] == 0,
    ensures
        words_value(p, n) == 0,
    decreases n,
{
    if n > 0 {
        lemma_zero_words(p, (n - 1) as nat);
    }
}

/// The number held by the first `n` words depends on those words alone
pub proof fn lemma_words_value_prefix(p: Seq<u32>, q: Seq<u32>, n: nat)
    requires
        n <= p.len(),
        n <= q.len(),
        forall|i: int| 0 <= i < n ==> p[i] == q[i],
    ensures
        words_value(p, n) == words_value(q, n),
    decreases n,
{
    if n > 0 {
        lemma_words_value_prefix(p, q, (n - 1) as nat);
    }
}

/// The first invalid word at or above `k` is at least `k`
proof fn lemma_first_invalid_at_least(a: LogicState, b: LogicState, k: nat)
    ensures
        first_invalid(a, b, k) >= k || first_invalid(a, b, k) == a.bit_width().spec_word_len(),
        first_invalid(a, b, k) <= a.bit_width().spec_word_len() || k > a.bit_width().spec_word_len(),
    decreases a.bit_width().spec_word_len() - k,
{
    if k < a.bit_width().spec_word_len() {
        lemma_first_invalid_at_least(a, b, k + 1);
    }
}

/// The word of a product that holds the lowest invalid bit, and the bits above it
fn invalid_word_mask(x: u32) -> (r: u32)
    ensures
        r == invalid_mask(x),
        r > 0 <==> x != 0,
{
    let vc = x.trailing_zeros();
    proof {
        vstd::std_specs::bits::axiom_u32_trailing_zeros(x);
    }
    if vc >= 32 {
        0
    } else {
        let m = 0xffff_ffffu32 << vc;
        proof {
            lemma_bit_shl(0xffff_ffffu32, vc, 31);
            if m == 0 {
                assert(!bit_of(m, 31));
            }
        }
        m
    }
}

/// Multiplies `input_a` by `input_b` into `product`, modulo `2^(32 * word_len)`; every bit
/// from the lowest invalid bit of either input up is undefined
pub fn mul(product: &mut LogicState, input_a: &LogicState, input_b: &LogicState)
    requires
        old(product).bit_width() == input_a.bit_width(),
        old(product).bit_width() == input_b.bit_width(),
    ensures
        final(product).bit_width() == old(product).bit_width(),
        forall|k: int|
            0 <= k < old(product).bit_width().spec_word_len() ==> #[trigger] final(product).spec_word(k)
                == mul_word(*input_a, *input_b, k),
{
    let word_len = product.bit_width().word_len() as usize;
    let p = product_words(input_a, input_b, word_len);
    let ghost wl = word_len as nat;
    let ghost prod = mul_product(*input_a, *input_b);
    proof {
        let witness = p@.subrange(0, word_len as int);
        lemma_words_value_prefix(witness, p@, wl);
        assert(witness.len() == wl && words_value(witness, wl) == mul_value(*input_a, *input_b));
        assert(prod.len() == wl && words_value(prod, wl) == mul_value(*input_a, *input_b));
        lemma_words_value_unique(prod, p@, wl);
        assert forall|k: int| 0 <= k < wl implies prod[k] == p@[k] by {
            assert(prod.subrange(0, wl as int)[k] == p@.subrange(0, wl as int)[k]);
        }
    }
    let mut done = false;
    let mut k: usize = 0;
    while k < word_len
        invariant
            word_len == wl,
            wl == old(product).bit_width().spec_word_len(),
            wl == input_a.bit_width().spec_word_len(),
            word_len <= 8,
            k <= word_len,
            product.bit_width() == old(product).bit_width(),
            prod == mul_product(*input_a, *input_b),
            forall|m: int| 0 <= m < wl ==> prod[m] == p@[m],
            done <==> (first_invalid(*input_a, *input_b, 0) as int) < k,
            !done ==> first_invalid(*input_a, *input_b, 0) == first_invalid(*input_a, *input_b, k as nat),
            forall|m: int| 0 <= m < k ==> #[trigger] product.spec_word(m) == mul_word(*input_a, *input_b, m),
        decreases word_len - k,
    {
        let ghost prev = *product;
        let ghost first = first_invalid(*input_a, *input_b, 0);
        if done {
            product.set_word(k, [0xffff_ffff, 0xffff_ffff]);
            proof {
                assert(product.spec_word(k as int) =~= mul_word(*input_a, *input_b, k as int));
            }
        } else {
            let x = input_a.get_word(k)[1] | input_b.get_word(k)[1];
            let mask = invalid_word_mask(x);
            let pk = p[k];
            product.set_word(k, [pk | mask, mask]);
            proof {
                lemma_first_invalid_at_least(*input_a, *input_b, (k + 1) as nat);
                if x != 0 {
                    assert(first == k);
                } else {
                    assert(first == first_invalid(*input_a, *input_b, (k + 1) as nat));
                    assert(first > k);
                    assert(pk | 0 == pk) by (bit_vector);
                }
                assert(product.spec_word(k as int) =~= mul_word(*input_a, *input_b, k as int));
            }
            if mask > 0 {
                done = true;
            }
        }
        assert forall|m: int| 0 <= m < k + 1 implies #[trigger] product.spec_word(m) == mul_word(
            *input_a,
            *input_b,
            m,
        ) by {
            if m < k {
                assert(product.spec_word(m) == prev.spec_word(m));
            }
        }
        k = k + 1;
    }
}

} // verus!
