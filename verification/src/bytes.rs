//! Byte-sequence scanning and copying helpers shared by the codecs.

use vstd::prelude::*;

verus! {

/// The index of the first occurrence of `b` in `s` at or after `i`, or
/// `s.len()` if `b` does not occur there.
pub open spec fn spec_find(s: Seq<u8>, b: u8, i: int) -> int
    decreases s.len() - i,
{
    if i < 0 || i >= s.len() {
        s.len() as int
    } else if s[i] == b {
        i
    } else {
        spec_find(s, b, i + 1)
    }
}

/// `spec_find` lands on an occurrence of `b`, or past the end when there is
/// none, and skips no earlier occurrence.
pub proof fn lemma_spec_find(s: Seq<u8>, b: u8, i: int)
    requires
        0 <= i <= s.len(),
    ensures
        i <= spec_find(s, b, i) <= s.len(),
        spec_find(s, b, i) < s.len() ==> s[spec_find(s, b, i)] == b,
        forall|j: int| i <= j < spec_find(s, b, i) ==> s[j] != b,
    decreases s.len() - i,
{
    if i < s.len() && s[i] != b {
        lemma_spec_find(s, b, i + 1);
    }
}

/// Any position that is preceded by no occurrence of `b`, and holds one
/// unless it is the end, is exactly what `spec_find` returns.
pub proof fn lemma_spec_find_is(s: Seq<u8>, b: u8, i: int, k: int)
    requires
        0 <= i <= k <= s.len(),
        forall|j: int| i <= j < k ==> s[j] != b,
        k < s.len() ==> s[k] == b,
    ensures
        spec_find(s, b, i) == k,
    decreases k - i,
{
    if i < k {
        lemma_spec_find_is(s, b, i + 1, k);
    }
}

/// The index of the first occurrence of `b` in `v` at or after `from`, or
/// `v.len()` if there is none.
pub fn find_byte(v: &Vec<u8>, b: u8, from: usize) -> (r: usize)
    requires
        from <= v@.len(),
    ensures
        r as int == spec_find(v@, b, from as int),
        from <= r <= v@.len(),
        r < v@.len() ==> v@[r as int] == b,
        forall|j: int| from <= j < r ==> v@[j] != b,
{
    let n = v.len();
    let mut i = from;
    while i < n
        invariant
            from <= i <= n,
            n == v@.len(),
            forall|j: int| from <= j < i ==> v@[j] != b,
        decreases n - i,
    {
        if v[i] == b {
            proof {
                lemma_spec_find_is(v@, b, from as int, i as int);
            }
            return i;
        }
        i = i + 1;
    }
    proof {
        lemma_spec_find_is(v@, b, from as int, n as int);
    }
    n
}

/// A copy of the bytes of `v` in the index range `[a, c)`.
pub fn copy_range(v: &Vec<u8>, a: usize, c: usize) -> (r: Vec<u8>)
    requires
        a <= c <= v@.len(),
    ensures
        r@ == v@.subrange(a as int, c as int),
{
    let mut out: Vec<u8> = Vec::new();
    let mut i = a;
    while i < c
        invariant
            a <= i <= c,
            c <= v@.len(),
            out@ == v@.subrange(a as int, i as int),
        decreases c - i,
    {
        out.push(v[i]);
        i = i + 1;
        proof {
            assert(out@ =~= v@.subrange(a as int, i as int));
        }
    }
    out
}

/// Appends `src` to `out`.
pub fn push_all(out: &mut Vec<u8>, src: &Vec<u8>)
    ensures
        final(out)@ == old(out)@ + src@,
{
    let n = src.len();
    let mut i: usize = 0;
    while i < n
        invariant
            0 <= i <= n,
            n == src@.len(),
            out@ == old(out)@ + src@.take(i as int),
        decreases n - i,
    {
        out.push(src[i]);
        i = i + 1;
        proof {
            assert(old(out)@ + src@.take(i as int) =~= (old(out)@ + src@.take(i - 1)).push(
                src@[i - 1],
            ));
        }
    }
    proof {
        assert(src@.take(n as int) =~= src@);
    }
}

/// Whether two byte vectors hold the same bytes.
pub fn bytes_eq(a: &Vec<u8>, b: &Vec<u8>) -> (r: bool)
    ensures
        r <==> a@ == b@,
{
    if a.len() != b.len() {
        return false;
    }
    let n = a.len();
    let mut i: usize = 0;
    while i < n
        invariant
            0 <= i <= n,
            n == a@.len() && n == b@.len(),
            forall|j: int| 0 <= j < i ==> a@[j] == b@[j],
        decreases n - i,
    {
        if a[i] != b[i] {
            return false;
        }
        i = i + 1;
    }
    proof {
        assert(a@ =~= b@);
    }
    true
}

} // verus!
