use crate::layout::BLOCK_SIZE;
use vstd::prelude::*;

verus! {

/// Whether unit `i` is marked in use: bit `i % 8` of byte `i / 8`.
pub open spec fn bit_set(bm: Seq<u8>, i: int) -> bool {
    (bm[i / 8] >> ((i % 8) as u8)) & 1u8 == 1u8
}

/// Number of units a bitmap of these bytes tracks.
pub open spec fn bit_count(bm: Seq<u8>) -> int {
    8 * (bm.len() as int)
}

/// Every unit is in use.
pub open spec fn all_set(bm: Seq<u8>) -> bool {
    forall|j: int| 0 <= j < bit_count(bm) ==> bit_set(bm, j)
}

/// `k` is the lowest-numbered free unit.
pub open spec fn lowest_clear(bm: Seq<u8>, k: int) -> bool {
    &&& 0 <= k < bit_count(bm)
    &&& !bit_set(bm, k)
    &&& forall|j: int| 0 <= j < k ==> bit_set(bm, j)
}

/// The lowest-numbered free unit, when there is one.
pub open spec fn first_free(bm: Seq<u8>) -> int {
    choose|k: int| lowest_clear(bm, k)
}

/// There is only one lowest free unit.
pub proof fn lemma_first_free(bm: Seq<u8>, k: int)
    requires
        lowest_clear(bm, k),
    ensures
        first_free(bm) == k,
{
    let c = first_free(bm);
    assert(lowest_clear(bm, c));
    if c < k {
        assert(bit_set(bm, c));
    } else if k < c {
        assert(bit_set(bm, k));
    }
}

/// When some unit is free, `first_free` is the lowest free unit.
pub proof fn lemma_first_free_exists(bm: Seq<u8>)
    requires
        !all_set(bm),
    ensures
        lowest_clear(bm, first_free(bm)),
{
    let j = choose|j: int| 0 <= j < bit_count(bm) && !bit_set(bm, j);
    lemma_lowest_clear_below(bm, j);
}

proof fn lemma_lowest_clear_below(bm: Seq<u8>, j: int)
    requires
        0 <= j < bit_count(bm),
        !bit_set(bm, j),
    ensures
        exists|k: int| lowest_clear(bm, k),
    decreases j,
{
    if forall|i: int| 0 <= i < j ==> bit_set(bm, i) {
        assert(lowest_clear(bm, j));
    } else {
        let i = choose|i: int| 0 <= i < j && !bit_set(bm, i);
        lemma_lowest_clear_below(bm, i);
    }
}

/// `bm` with the bit of unit `k` set in its byte.
pub open spec fn spec_mark(bm: Seq<u8>, k: int) -> Seq<u8> {
    bm.update(k / 8, bm[k / 8] | (1u8 << ((k % 8) as u8)))
}

/// Exactly the units below `n` are in use.
pub open spec fn prefix_set(bm: Seq<u8>, n: int) -> bool {
    forall|j: int| 0 <= j < bit_count(bm) ==> (bit_set(bm, j) <==> j < n)
}

/// `new` is `old` with unit `k` marked in use and every other unit kept.
pub open spec fn set_one(old: Seq<u8>, new: Seq<u8>, k: int) -> bool {
    &&& new.len() == old.len()
    &&& forall|j: int| 0 <= j < bit_count(old) ==> (bit_set(new, j) <==> (bit_set(old, j) || j == k))
}

/// `new` is `old` with unit `k` marked free and every other unit kept.
pub open spec fn clear_one(old: Seq<u8>, new: Seq<u8>, k: int) -> bool {
    &&& new.len() == old.len()
    &&& forall|j: int| 0 <= j < bit_count(old) ==> (bit_set(new, j) <==> (bit_set(old, j) && j != k))
}

/// A block of zeros has every unit free.
pub proof fn lemma_zero_block_free(bm: Seq<u8>)
    requires
        forall|i: int| 0 <= i < bm.len() ==> bm[i] == 0u8,
    ensures
        prefix_set(bm, 0),
{
    assert forall|j: int| 0 <= j < bit_count(bm) implies !bit_set(bm, j) by {
        let s = (j % 8) as u8;
        assert((0u8 >> s) & 1u8 == 0u8) by (bit_vector);
    }
}

/// In a bitmap whose units below `n` are exactly those in use, the lowest free
/// unit is `n`, or there is none when `n` covers the whole bitmap.
pub proof fn lemma_prefix_lowest_clear(bm: Seq<u8>, n: int)
    requires
        0 <= n <= bit_count(bm),
        prefix_set(bm, n),
    ensures
        n < bit_count(bm) ==> lowest_clear(bm, n),
        n == bit_count(bm) ==> all_set(bm),
{
}

/// Setting the lowest free unit of a prefix bitmap gives the next prefix.
pub proof fn lemma_prefix_grows(old: Seq<u8>, new: Seq<u8>, n: int)
    requires
        0 <= n < bit_count(old),
        prefix_set(old, n),
        set_one(old, new, n),
    ensures
        prefix_set(new, n + 1),
{
}

proof fn lemma_byte_full(b: u8)
    ensures
        b == 0xffu8 <==> (forall|s: u8| s < 8 ==> #[trigger] ((b >> s) & 1u8) == 1u8),
{
    assert(b == 0xffu8 ==> forall|s: u8| s < 8 ==> #[trigger] ((b >> s) & 1u8) == 1u8) by (bit_vector);
    if b != 0xffu8 {
        assert(b != 0xffu8 ==> ((b >> 0u8) & 1u8 == 0u8 || (b >> 1u8) & 1u8 == 0u8 || (b >> 2u8) & 1u8 == 0u8
            || (b >> 3u8) & 1u8 == 0u8 || (b >> 4u8) & 1u8 == 0u8 || (b >> 5u8) & 1u8 == 0u8
            || (b >> 6u8) & 1u8 == 0u8 || (b >> 7u8) & 1u8 == 0u8)) by (bit_vector);
        assert((b >> 0u8) & 1u8 == 0u8 ==> (b >> 0u8) & 1u8 != 1u8) by (bit_vector);
    }
}

proof fn lemma_set_bit(b: u8, s: u8, t: u8)
    requires
        s < 8,
        t < 8,
    ensures
        ((b | (1u8 << s)) >> t) & 1u8 == 1u8 <==> ((b >> t) & 1u8 == 1u8 || s == t),
{
    assert(((b | (1u8 << s)) >> t) & 1u8 == 1u8 <==> ((b >> t) & 1u8 == 1u8 || s == t)) by (bit_vector)
        requires
            s < 8,
            t < 8,
    ;
}

proof fn lemma_clear_bit(b: u8, s: u8, t: u8)
    requires
        s < 8,
        t < 8,
    ensures
        ((b & !(1u8 << s)) >> t) & 1u8 == 1u8 <==> ((b >> t) & 1u8 == 1u8 && s != t),
{
    assert(((b & !(1u8 << s)) >> t) & 1u8 == 1u8 <==> ((b >> t) & 1u8 == 1u8 && s != t)) by (bit_vector)
        requires
            s < 8,
            t < 8,
    ;
}

proof fn lemma_update_byte(old: Seq<u8>, i: int, v: u8, s: u8)
    requires
        0 <= i < old.len(),
        s < 8,
        forall|t: u8| t < 8 ==> (((v >> t) & 1u8 == 1u8) <==> (((old[i] >> t) & 1u8 == 1u8) || t == s)),
    ensures
        set_one(old, old.update(i, v), 8 * i + s),
{
    let new = old.update(i, v);
    assert forall|j: int| 0 <= j < bit_count(old) implies (bit_set(new, j) <==> (bit_set(old, j) || j == 8 * i + s)) by {
        let t = (j % 8) as u8;
        assert(t < 8);
    }
}

proof fn lemma_update_byte_clear(old: Seq<u8>, i: int, v: u8, s: u8)
    requires
        0 <= i < old.len(),
        s < 8,
        forall|t: u8| t < 8 ==> (((v >> t) & 1u8 == 1u8) <==> (((old[i] >> t) & 1u8 == 1u8) && t != s)),
    ensures
        clear_one(old, old.update(i, v), 8 * i + s),
{
    let new = old.update(i, v);
    assert forall|j: int| 0 <= j < bit_count(old) implies (bit_set(new, j) <==> (bit_set(old, j) && j != 8 * i + s)) by {
        let t = (j % 8) as u8;
        assert(t < 8);
    }
}

/// Marks the lowest-numbered free unit of a bitmap block in use and returns
/// its offset; returns `None`, leaving the block as it was, when every unit is
/// in use.
pub fn bitmap_allocate(bm: &mut Vec<u8>) -> (r: Option<usize>)
    requires
        old(bm)@.len() == BLOCK_SIZE,
    ensures
        match r {
            None => all_set(old(bm)@) && final(bm)@ == old(bm)@,
            Some(k) => {
                &&& lowest_clear(old(bm)@, k as int)
                &&& set_one(old(bm)@, final(bm)@, k as int)
                &&& final(bm)@ == spec_mark(old(bm)@, k as int)
            },
        },
{
    let n = bm.len();
    let mut i: usize = 0;
    while i < n
        invariant
            n == bm@.len() == BLOCK_SIZE,
            bm@ == old(bm)@,
            0 <= i <= n,
            forall|j: int| 0 <= j < 8 * i ==> bit_set(bm@, j),
        decreases n - i,
    {
        let b = bm[i];
        if b != 0xffu8 {
            proof {
                lemma_byte_full(b);
            }
            let mut s: u8 = 0;
            while (b >> s) & 1u8 == 1u8
                invariant
                    s < 8,
                    b != 0xffu8,
                    forall|t: u8| t < s ==> #[trigger] ((b >> t) & 1u8) == 1u8,
                decreases 8 - s,
            {
                proof {
                    lemma_byte_full(b);
                    if s == 7 {
                        assert forall|t: u8| t < 8 implies #[trigger] ((b >> t) & 1u8) == 1u8 by {
                            if t < 7 {
                            }
                        }
                    }
                }
                s = s + 1;
            }
            let v: u8 = b | (1u8 << s);
            proof {
                assert forall|t: u8| t < 8 implies (((v >> t) & 1u8 == 1u8) <==> (((b >> t) & 1u8 == 1u8) || t == s)) by {
                    lemma_set_bit(b, s, t);
                }
                lemma_update_byte(bm@, i as int, v, s);
                let k = 8 * i + s;
                assert forall|j: int| 0 <= j < k implies bit_set(old(bm)@, j) by {
                    if j >= 8 * i {
                        let t = (j % 8) as u8;
                        assert(j / 8 == i);
                        assert(t < s);
                        assert(((b >> t) & 1u8) == 1u8);
                    }
                }
                assert(((8 * i + s) % 8) as u8 == s);
                assert((8 * i + s) / 8 == i);
            }
            bm.set(i, v);
            return Some(8 * i + s as usize);
        }
        proof {
            lemma_byte_full(b);
            assert forall|j: int| 0 <= j < 8 * (i + 1) implies bit_set(bm@, j) by {
                if j >= 8 * i {
                    let t = (j % 8) as u8;
                    assert(t < 8);
                    assert(((b >> t) & 1u8) == 1u8);
                }
            }
        }
        i = i + 1;
    }
    None
}

/// Marks unit `k` of a bitmap block in use, keeping every other unit.
pub fn bitmap_mark(bm: &mut Vec<u8>, k: usize)
    requires
        old(bm)@.len() == BLOCK_SIZE,
        k < 8 * BLOCK_SIZE,
    ensures
        set_one(old(bm)@, final(bm)@, k as int),
        final(bm)@ == spec_mark(old(bm)@, k as int),
{
    let i = k / 8;
    let s = (k % 8) as u8;
    let b = bm[i];
    let v: u8 = b | (1u8 << s);
    proof {
        assert forall|t: u8| t < 8 implies (((v >> t) & 1u8 == 1u8) <==> (((b >> t) & 1u8 == 1u8) || t == s)) by {
            lemma_set_bit(b, s, t);
        }
        lemma_update_byte(bm@, i as int, v, s);
        assert(8 * i + s == k);
    }
    bm.set(i, v);
}

/// Marks unit `k` of a bitmap block free, keeping every other unit.
pub fn bitmap_free(bm: &mut Vec<u8>, k: usize)
    requires
        old(bm)@.len() == BLOCK_SIZE,
        k < 8 * BLOCK_SIZE,
    ensures
        clear_one(old(bm)@, final(bm)@, k as int),
{
    let i = k / 8;
    let s = (k % 8) as u8;
    let b = bm[i];
    let v: u8 = b & !(1u8 << s);
    proof {
        assert forall|t: u8| t < 8 implies (((v >> t) & 1u8 == 1u8) <==> (((b >> t) & 1u8 == 1u8) && t != s)) by {
            lemma_clear_bit(b, s, t);
        }
        lemma_update_byte_clear(bm@, i as int, v, s);
    }
    bm.set(i, v);
}

} // verus!
