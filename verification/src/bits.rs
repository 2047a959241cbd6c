//! Bits stored most-significant first in a run of bytes, as the page
//! bitmaps of the kernel lay them out: bit `i` lives in byte `i / 8`
//! under the mask `0b1000_0000 >> (i % 8)`.
use vstd::prelude::*;

verus! {

/// Whether bit `k` (counted from the most significant end) of `b` is set.
pub open spec fn byte_bit(b: u8, k: int) -> bool {
    b & (0x80u8 >> (k as u8)) != 0u8
}

/// The bits of a run of bytes, most significant bit of each byte first.
pub open spec fn bits_of(bytes: Seq<u8>) -> Seq<bool> {
    Seq::new(bytes.len() * 8, |i: int| byte_bit(bytes[i / 8], i % 8))
}

/// The number of set entries among the first `n` of `s`.
pub open spec fn ones(s: Seq<bool>, n: int) -> nat
    decreases n,
{
    if n <= 0 {
        0
    } else {
        ones(s, n - 1) + if s[n - 1] { 1nat } else { 0nat }
    }
}

/// The number of set entries of `s`.
pub open spec fn popcount(s: Seq<bool>) -> nat {
    ones(s, s.len() as int)
}

/// `s` with every entry whose index lies in `[lo, hi)` set.
pub open spec fn fill(s: Seq<bool>, lo: int, hi: int) -> Seq<bool> {
    Seq::new(s.len(), |j: int| s[j] || (lo <= j && j < hi))
}

/// The number of cleared entries of `s` whose index lies in `[lo, hi)`.
pub open spec fn zeros_in(s: Seq<bool>, lo: int, hi: int) -> nat
    decreases hi - lo,
{
    if hi <= lo {
        0
    } else {
        zeros_in(s, lo, hi - 1) + if 0 <= hi - 1 < s.len() && !s[hi - 1] { 1nat } else { 0nat }
    }
}

proof fn lemma_mask_or(b: u8, k: u8, j: u8)
    requires
        k < 8,
        j < 8,
    ensures
        ((b | (0x80u8 >> k)) & (0x80u8 >> j) != 0u8) == (j == k || (b & (0x80u8 >> j) != 0u8)),
{
    assert(((b | (0x80u8 >> k)) & (0x80u8 >> j) != 0u8) == (j == k || (b & (0x80u8 >> j) != 0u8)))
        by (bit_vector)
        requires
            k < 8,
            j < 8,
    ;
}

proof fn lemma_mask_clear(b: u8, k: u8, j: u8)
    requires
        k < 8,
        j < 8,
    ensures
        ((b & !(0x80u8 >> k)) & (0x80u8 >> j) != 0u8) == (j != k && (b & (0x80u8 >> j) != 0u8)),
{
    assert(((b & !(0x80u8 >> k)) & (0x80u8 >> j) != 0u8) == (j != k && (b & (0x80u8 >> j) != 0u8)))
        by (bit_vector)
        requires
            k < 8,
            j < 8,
    ;
}

proof fn lemma_mask_xor(b: u8, k: u8, j: u8)
    requires
        k < 8,
        j < 8,
    ensures
        ((b ^ (0x80u8 >> k)) & (0x80u8 >> j) != 0u8) == (if j == k {
            !(b & (0x80u8 >> j) != 0u8)
        } else {
            b & (0x80u8 >> j) != 0u8
        }),
{
    assert(((b ^ (0x80u8 >> k)) & (0x80u8 >> j) != 0u8) == (if j == k {
        !(b & (0x80u8 >> j) != 0u8)
    } else {
        b & (0x80u8 >> j) != 0u8
    })) by (bit_vector)
        requires
            k < 8,
            j < 8,
    ;
}

proof fn lemma_zero_byte(j: u8)
    requires
        j < 8,
    ensures
        !(0u8 & (0x80u8 >> j) != 0u8),
{
    assert(!(0u8 & (0x80u8 >> j) != 0u8)) by (bit_vector);
}

/// The bits of a run of zero bytes are all cleared.
pub proof fn lemma_zero_bytes(bytes: Seq<u8>)
    requires
        forall|k: int| 0 <= k < bytes.len() ==> bytes[k] == 0u8,
    ensures
        forall|i: int| 0 <= i < bits_of(bytes).len() ==> !#[trigger] bits_of(bytes)[i],
{
    assert forall|i: int| 0 <= i < bits_of(bytes).len() implies !#[trigger] bits_of(bytes)[i] by {
        lemma_zero_byte((i % 8) as u8);
    }
}

/// The bit at `index` of `bytes`.
pub fn read_bit(bytes: &Vec<u8>, index: usize) -> (bit: bool)
    requires
        index / 8 < bytes.len(),
    ensures
        index < bits_of(bytes@).len(),
        bit == bits_of(bytes@)[index as int],
{
    let mask: u8 = 0x80u8 >> ((index % 8) as u8);
    bytes[index / 8] & mask != 0
}

/// Sets (`value`) or clears (`!value`) the bit at `index`, leaving every other bit.
pub fn write_bit(bytes: &mut Vec<u8>, index: usize, value: bool)
    requires
        index / 8 < old(bytes).len(),
    ensures
        final(bytes).len() == old(bytes).len(),
        index < bits_of(old(bytes)@).len(),
        bits_of(final(bytes)@) == bits_of(old(bytes)@).update(index as int, value),
{
    let ghost before = bytes@;
    let k: u8 = (index % 8) as u8;
    let mask: u8 = 0x80u8 >> k;
    let b = bytes[index / 8];
    let nb: u8 = if value { b | mask } else { b & !mask };
    bytes.set(index / 8, nb);
    proof {
        let s0 = bits_of(before);
        let s1 = bits_of(bytes@);
        assert forall|j: int| 0 <= j < s1.len() implies s1[j] == s0.update(index as int, value)[j] by {
            if j / 8 == index / 8 {
                if value {
                    lemma_mask_or(b, k, (j % 8) as u8);
                } else {
                    lemma_mask_clear(b, k, (j % 8) as u8);
                }
            }
        }
        assert(s1 =~= s0.update(index as int, value));
    }
}

/// Flips the bit at `index`, leaving every other bit.
pub fn toggle_bit(bytes: &mut Vec<u8>, index: usize)
    requires
        index / 8 < old(bytes).len(),
    ensures
        final(bytes).len() == old(bytes).len(),
        index < bits_of(old(bytes)@).len(),
        bits_of(final(bytes)@) == bits_of(old(bytes)@).update(
            index as int,
            !bits_of(old(bytes)@)[index as int],
        ),
{
    let ghost before = bytes@;
    let k: u8 = (index % 8) as u8;
    let mask: u8 = 0x80u8 >> k;
    let b = bytes[index / 8];
    bytes.set(index / 8, b ^ mask);
    proof {
        let s0 = bits_of(before);
        let s1 = bits_of(bytes@);
        let t = s0.update(index as int, !s0[index as int]);
        assert forall|j: int| 0 <= j < s1.len() implies s1[j] == t[j] by {
            if j / 8 == index / 8 {
                lemma_mask_xor(b, k, (j % 8) as u8);
            }
        }
        assert(s1 =~= t);
    }
}

/// `ones` never exceeds the number of entries counted.
pub proof fn lemma_ones_bound(s: Seq<bool>, n: int)
    requires
        0 <= n,
    ensures
        ones(s, n) <= n,
    decreases n,
{
    if n > 0 {
        lemma_ones_bound(s, n - 1);
    }
}

/// Writing one entry changes the count of set entries by at most that entry.
pub proof fn lemma_ones_update(s: Seq<bool>, i: int, v: bool, n: int)
    requires
        0 <= i < s.len(),
        0 <= n <= s.len(),
    ensures
        ones(s.update(i, v), n) + (if i < n && s[i] { 1int } else { 0int }) == ones(s, n) + (if i
            < n && v { 1int } else { 0int }),
    decreases n,
{
    if n > 0 {
        lemma_ones_update(s, i, v, n - 1);
    }
}

/// Setting a cleared entry adds one to the population count.
pub proof fn lemma_popcount_set(s: Seq<bool>, i: int)
    requires
        0 <= i < s.len(),
        !s[i],
    ensures
        popcount(s.update(i, true)) == popcount(s) + 1,
{
    lemma_ones_update(s, i, true, s.len() as int);
}

/// Clearing a set entry takes one from the population count.
pub proof fn lemma_popcount_clear(s: Seq<bool>, i: int)
    requires
        0 <= i < s.len(),
        s[i],
    ensures
        popcount(s.update(i, false)) + 1 == popcount(s),
{
    lemma_ones_update(s, i, false, s.len() as int);
}

/// The population count of a sequence with no set entry is zero.
pub proof fn lemma_popcount_none(s: Seq<bool>, n: int)
    requires
        0 <= n <= s.len(),
        forall|j: int| 0 <= j < n ==> !s[j],
    ensures
        ones(s, n) == 0,
    decreases n,
{
    if n > 0 {
        lemma_popcount_none(s, n - 1);
    }
}

/// The set entries of `s` before `n` plus its cleared ones number `n`.
pub proof fn lemma_ones_zeros(s: Seq<bool>, n: int)
    requires
        0 <= n <= s.len(),
    ensures
        ones(s, n) + zeros_in(s, 0, n) == n,
    decreases n,
{
    if n > 0 {
        lemma_ones_zeros(s, n - 1);
    }
}

/// Cleared entries of a window are at most the cleared entries of a wider window.
pub proof fn lemma_zeros_in_mono(s: Seq<bool>, lo: int, hi: int, lo2: int, hi2: int)
    requires
        lo2 <= lo,
        hi <= hi2,
    ensures
        zeros_in(s, lo, hi) <= zeros_in(s, lo2, hi2),
    decreases hi2 - lo2,
{
    if hi <= lo {
    } else if hi2 > hi {
        lemma_zeros_in_mono(s, lo, hi, lo2, hi2 - 1);
    } else if lo2 < lo {
        lemma_zeros_in_shift(s, lo2, hi2);
        lemma_zeros_in_mono(s, lo, hi, lo2 + 1, hi2);
    }
}

/// Dropping the first index of a window drops at most its own cleared entry.
pub proof fn lemma_zeros_in_shift(s: Seq<bool>, lo: int, hi: int)
    requires
        lo < hi,
    ensures
        zeros_in(s, lo, hi) == zeros_in(s, lo + 1, hi) + if 0 <= lo < s.len() && !s[lo] {
            1nat
        } else {
            0nat
        },
    decreases hi - lo,
{
    if hi - 1 > lo {
        lemma_zeros_in_shift(s, lo, hi - 1);
    } else {
        assert(zeros_in(s, lo + 1, hi) == 0);
        assert(zeros_in(s, lo, hi - 1) == 0);
    }
}

} // verus!

verus! {

/// Setting the entries of a window adds its cleared entries to the population count.
pub proof fn lemma_popcount_fill(s: Seq<bool>, lo: int, hi: int)
    requires
        0 <= lo,
        hi <= s.len(),
    ensures
        fill(s, lo, hi).len() == s.len(),
        popcount(fill(s, lo, hi)) == popcount(s) + zeros_in(s, lo, hi),
    decreases hi - lo,
{
    if hi <= lo {
        assert(fill(s, lo, hi) =~= s);
    } else {
        lemma_popcount_fill(s, lo, hi - 1);
        let f = fill(s, lo, hi - 1);
        assert(fill(s, lo, hi) =~= f.update(hi - 1, true));
        if !s[hi - 1] {
            lemma_popcount_set(f, hi - 1);
        } else {
            assert(f.update(hi - 1, true) =~= f);
        }
    }
}

/// Extending a filled window by one index sets that index.
pub proof fn lemma_fill_step(s: Seq<bool>, lo: int, hi: int)
    requires
        lo <= hi < s.len(),
        0 <= lo,
    ensures
        fill(s, lo, hi + 1) == fill(s, lo, hi).update(hi, true),
        fill(s, lo, hi)[hi] == s[hi],
        zeros_in(s, lo, hi + 1) == zeros_in(s, lo, hi) + if !s[hi] { 1nat } else { 0nat },
{
    assert(fill(s, lo, hi + 1) =~= fill(s, lo, hi).update(hi, true));
}

/// Entries beyond `m` that are all cleared add nothing to the count.
pub proof fn lemma_ones_clear_tail(s: Seq<bool>, m: int, n: int)
    requires
        0 <= m <= n <= s.len(),
        forall|j: int| m <= j < n ==> !s[j],
    ensures
        ones(s, n) == ones(s, m),
    decreases n - m,
{
    if m < n {
        lemma_ones_clear_tail(s, m, n - 1);
    }
}

} // verus!

verus! {

/// Cleared entries of adjacent windows add up.
pub proof fn lemma_zeros_in_split(s: Seq<bool>, a: int, b: int, c: int)
    requires
        a <= b <= c,
    ensures
        zeros_in(s, a, c) == zeros_in(s, a, b) + zeros_in(s, b, c),
    decreases c - b,
{
    if c > b {
        lemma_zeros_in_split(s, a, b, c - 1);
    }
}

/// A window holds no more cleared entries than indices.
pub proof fn lemma_zeros_in_bound(s: Seq<bool>, a: int, b: int)
    requires
        a <= b,
    ensures
        zeros_in(s, a, b) <= b - a,
    decreases b - a,
{
    if b > a {
        lemma_zeros_in_bound(s, a, b - 1);
    }
}

/// A window of cleared entries inside `s` counts each of them; one of set entries counts none.
pub proof fn lemma_zeros_in_uniform(s: Seq<bool>, a: int, b: int, value: bool)
    requires
        0 <= a <= b <= s.len(),
        forall|j: int| a <= j < b ==> s[j] == value,
    ensures
        zeros_in(s, a, b) == if value { 0 } else { b - a },
    decreases b - a,
{
    if b > a {
        lemma_zeros_in_uniform(s, a, b - 1, value);
    }
}

} // verus!

verus! {

/// Every entry of `s` inverted.
pub open spec fn negate(s: Seq<bool>) -> Seq<bool> {
    Seq::new(s.len(), |j: int| !s[j])
}

/// `s` with every entry whose index lies in `[lo, hi)` cleared.
pub open spec fn clear(s: Seq<bool>, lo: int, hi: int) -> Seq<bool> {
    Seq::new(s.len(), |j: int| s[j] && !(lo <= j && j < hi))
}

/// The number of set entries of `s` whose index lies in `[lo, hi)`.
pub open spec fn ones_in(s: Seq<bool>, lo: int, hi: int) -> nat {
    zeros_in(negate(s), lo, hi)
}

/// The set entries of an inverted sequence are the cleared entries of the original.
pub proof fn lemma_ones_negate(s: Seq<bool>, n: int)
    requires
        0 <= n <= s.len(),
    ensures
        ones(negate(s), n) == zeros_in(s, 0, n),
    decreases n,
{
    if n > 0 {
        lemma_ones_negate(s, n - 1);
    }
}

/// Extending a cleared window by one index clears that index.
pub proof fn lemma_clear_step(s: Seq<bool>, lo: int, hi: int)
    requires
        0 <= lo <= hi < s.len(),
    ensures
        clear(s, lo, hi + 1) == clear(s, lo, hi).update(hi, false),
        clear(s, lo, hi)[hi] == s[hi],
        ones_in(s, lo, hi + 1) == ones_in(s, lo, hi) + if s[hi] { 1nat } else { 0nat },
{
    assert(clear(s, lo, hi + 1) =~= clear(s, lo, hi).update(hi, false));
}

} // verus!

verus! {

/// The index of the first cleared entry of `s` from `j` on and below `n` (`n` if none).
pub open spec fn first_clear_from(s: Seq<bool>, j: int, n: int) -> int
    decreases n - j,
{
    if j >= n {
        n
    } else if !s[j] {
        j
    } else {
        first_clear_from(s, j + 1, n)
    }
}

/// The first cleared entry from `j` lies between `j` and `n`.
pub proof fn lemma_first_clear_range(s: Seq<bool>, j: int, n: int)
    requires
        j <= n,
    ensures
        j <= first_clear_from(s, j, n) <= n,
    decreases n - j,
{
    if j < n && s[j] {
        lemma_first_clear_range(s, j + 1, n);
    }
}

/// A cleared entry with only set entries before it is the first cleared one.
pub proof fn lemma_first_clear(s: Seq<bool>, j: int, n: int, k: int)
    requires
        0 <= j <= k < n,
        !s[k],
        forall|m: int| j <= m < k ==> s[m],
    ensures
        first_clear_from(s, j, n) == k,
    decreases k - j,
{
    if j < k {
        lemma_first_clear(s, j + 1, n, k);
    }
}

/// Setting a cleared entry below `n` takes one from the cleared entries below `n`.
pub proof fn lemma_zeros_take(s: Seq<bool>, i: int, n: int)
    requires
        0 <= i < n <= s.len(),
        !s[i],
    ensures
        zeros_in(s.update(i, true), 0, n) + 1 == zeros_in(s, 0, n),
{
    lemma_ones_update(s, i, true, n);
    lemma_ones_zeros(s, n);
    lemma_ones_zeros(s.update(i, true), n);
}

/// A window with a cleared entry has a first cleared entry inside it.
pub proof fn lemma_first_clear_exists(s: Seq<bool>, j: int, n: int)
    requires
        0 <= j <= n <= s.len(),
        zeros_in(s, j, n) > 0,
    ensures
        j <= first_clear_from(s, j, n) < n,
        !s[first_clear_from(s, j, n)],
        forall|m: int| j <= m < first_clear_from(s, j, n) ==> s[m],
    decreases n - j,
{
    if s[j] {
        lemma_zeros_in_shift(s, j, n);
        lemma_first_clear_exists(s, j + 1, n);
    }
}

/// A sequence whose set entries are all set in another has no more of them.
pub proof fn lemma_ones_sub(s: Seq<bool>, t: Seq<bool>, n: int)
    requires
        0 <= n <= s.len(),
        s.len() == t.len(),
        forall|j: int| 0 <= j < n && #[trigger] s[j] ==> t[j],
    ensures
        ones(s, n) <= ones(t, n),
    decreases n,
{
    if n > 0 {
        lemma_ones_sub(s, t, n - 1);
    }
}

} // verus!
