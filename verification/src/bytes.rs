//! Byte-buffer helpers used by every on-disk format.

use vstd::prelude::*;

verus! {

/// Appends the bytes of `s` to `v`.
pub fn push_slice(v: &mut Vec<u8>, s: &[u8])
    ensures
        final(v)@ == old(v)@ + s@,
{
    let mut i: usize = 0;
    while i < s.len()
        invariant
            0 <= i <= s@.len(),
            v@ == old(v)@ + s@.subrange(0, i as int),
        decreases s@.len() - i,
    {
        v.push(s[i]);
        i = i + 1;
        proof {
            assert(s@.subrange(0, i as int) =~= s@.subrange(0, i - 1).push(s@[i - 1]));
        }
    }
    proof {
        assert(s@.subrange(0, s@.len() as int) =~= s@);
    }
}

/// A fresh vector holding `s[i..j]`.
pub fn copy_range(s: &[u8], i: usize, j: usize) -> (r: Vec<u8>)
    requires
        i <= j <= s@.len(),
    ensures
        r@ == s@.subrange(i as int, j as int),
{
    let mut r: Vec<u8> = Vec::new();
    let mut k: usize = i;
    while k < j
        invariant
            i <= k <= j,
            j <= s@.len(),
            r@ == s@.subrange(i as int, k as int),
        decreases j - k,
    {
        r.push(s[k]);
        k = k + 1;
        proof {
            assert(s@.subrange(i as int, k as int) =~= s@.subrange(i as int, k - 1).push(s@[k - 1]));
        }
    }
    r
}

/// Whether `s[i..i + t.len()]` equals `t`.
pub fn range_equals(s: &[u8], i: usize, t: &[u8]) -> (r: bool)
    requires
        i + t@.len() <= s@.len(),
    ensures
        r == (s@.subrange(i as int, i + t@.len()) == t@),
{
    let n: usize = s.len();
    let mut k: usize = 0;
    while k < t.len()
        invariant
            0 <= k <= t@.len(),
            i + t@.len() <= s@.len(),
            n == s@.len(),
            forall|m: int| 0 <= m < k ==> s@[i + m] == t@[m],
        decreases t@.len() - k,
    {
        let idx: usize = i + k;
        if s[idx] != t[k] {
            proof {
                assert(s@.subrange(i as int, i + t@.len())[k as int] != t@[k as int]);
            }
            return false;
        }
        k = k + 1;
    }
    proof {
        assert(s@.subrange(i as int, i + t@.len()) =~= t@);
    }
    true
}

/// A vector of `n` zero bytes.
pub fn zeros(n: usize) -> (r: Vec<u8>)
    ensures
        r@ == Seq::new(n as nat, |k: int| 0u8),
{
    let mut r: Vec<u8> = Vec::new();
    let mut k: usize = 0;
    while k < n
        invariant
            0 <= k <= n,
            r@ == Seq::new(k as nat, |m: int| 0u8),
        decreases n - k,
    {
        r.push(0u8);
        k = k + 1;
        proof {
            assert(r@ =~= Seq::new(k as nat, |m: int| 0u8));
        }
    }
    r
}

/// A piece of a run of bytes found at `c` in `p` is found in `p` at the same offset from `c`.
pub proof fn lemma_sub_of_sub(p: Seq<u8>, c: int, w: Seq<u8>, a: int, b: int)
    requires
        0 <= c,
        c + w.len() <= p.len(),
        p.subrange(c, c + w.len()) == w,
        0 <= a <= b <= w.len(),
    ensures
        p.subrange(c + a, c + b) == w.subrange(a, b),
{
    assert forall|i: int| 0 <= i < b - a implies p.subrange(c + a, c + b)[i] == w.subrange(a, b)[i] by {
        assert(p.subrange(c, c + w.len())[a + i] == p[c + a + i]);
    }
    assert(p.subrange(c + a, c + b) =~= w.subrange(a, b));
}

} // verus!
