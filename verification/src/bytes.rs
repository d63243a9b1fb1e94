use vstd::prelude::*;
use vstd::arithmetic::div_mod::{
    lemma_fundamental_div_mod_converse_div, lemma_fundamental_div_mod_converse_mod,
};

verus! {

/// The value of a byte sequence read as a little-endian integer.
pub open spec fn le_val(s: Seq<u8>) -> nat
    decreases s.len(),
{
    if s.len() == 0 {
        0
    } else {
        s[0] as nat + 256 * le_val(s.subrange(1, s.len() as int))
    }
}

/// The `len`-byte little-endian encoding of `n` (truncated to `len` bytes).
pub open spec fn le_bytes(n: nat, len: nat) -> Seq<u8>
    decreases len,
{
    if len == 0 {
        Seq::empty()
    } else {
        seq![(n % 256) as u8] + le_bytes(n / 256, (len - 1) as nat)
    }
}

/// A byte sequence is exactly the little-endian encoding of its own value.
pub proof fn lemma_le_bytes_of_val(s: Seq<u8>)
    ensures
        le_bytes(le_val(s), s.len()) == s,
    decreases s.len(),
{
    if s.len() == 0 {
        assert(le_bytes(le_val(s), 0) =~= s);
    } else {
        let tail = s.subrange(1, s.len() as int);
        let v = le_val(s);
        assert(v == 256 * le_val(tail) + s[0] as nat);
        lemma_fundamental_div_mod_converse_mod(v as int, 256, le_val(tail) as int, s[0] as int);
        lemma_fundamental_div_mod_converse_div(v as int, 256, le_val(tail) as int, s[0] as int);
        assert(v % 256 == s[0] as nat);
        assert(v / 256 == le_val(tail));
        lemma_le_bytes_of_val(tail);
        assert(le_bytes(v, s.len()) =~= s);
    }
}

/// Equal little-endian values of equal length are the same bytes.
pub proof fn lemma_le_val_injective(a: Seq<u8>, b: Seq<u8>)
    requires
        a.len() == b.len(),
        le_val(a) == le_val(b),
    ensures
        a == b,
{
    lemma_le_bytes_of_val(a);
    lemma_le_bytes_of_val(b);
}

/// A little-endian value is zero exactly when every byte is zero.
pub proof fn lemma_le_val_zero(s: Seq<u8>)
    ensures
        (le_val(s) == 0) <==> (forall|i: int| 0 <= i < s.len() ==> s[i] == 0),
    decreases s.len(),
{
    if s.len() > 0 {
        let tail = s.subrange(1, s.len() as int);
        lemma_le_val_zero(tail);
        if le_val(s) == 0 {
            assert(forall|i: int| 0 <= i < s.len() ==> s[i] == 0) by {
                assert(forall|i: int| 1 <= i < s.len() ==> s[i] == tail[i - 1]);
            }
        } else {
            if forall|i: int| 0 <= i < s.len() ==> s[i] == 0 {
                assert(forall|i: int| 0 <= i < tail.len() ==> tail[i] == s[i + 1]);
                assert(le_val(s) == 0);
            }
        }
    }
}

/// All the sequences of `s`, one after another.
pub open spec fn concat_all(s: Seq<Seq<u8>>) -> Seq<u8>
    decreases s.len(),
{
    if s.len() == 0 {
        Seq::empty()
    } else {
        concat_all(s.drop_last()) + s.last()
    }
}

/// Extending the list by one sequence appends that sequence to the whole.
pub proof fn lemma_concat_all_step(s: Seq<Seq<u8>>, i: int)
    requires
        0 <= i < s.len(),
    ensures
        concat_all(s.take(i + 1)) == concat_all(s.take(i)) + s[i],
{
    let t = s.take(i + 1);
    assert(t.drop_last() =~= s.take(i));
    assert(t.last() == s[i]);
}

/// Returns `dst` with all of `src` appended.
pub fn push_all(dst: Vec<u8>, src: &[u8]) -> (r: Vec<u8>)
    ensures
        r@ == dst@ + src@,
{
    let mut out = dst;
    let mut j: usize = 0;
    while j < src.len()
        invariant
            j <= src@.len(),
            out@ == dst@ + src@.subrange(0, j as int),
        decreases src@.len() - j,
    {
        out.push(src[j]);
        j = j + 1;
        assert(out@ =~= dst@ + src@.subrange(0, j as int));
    }
    assert(out@ =~= dst@ + src@);
    out
}

/// A fresh vector with the same bytes.
pub fn copy_bytes(src: &[u8]) -> (r: Vec<u8>)
    ensures
        r@ == src@,
{
    let out: Vec<u8> = Vec::new();
    push_all(out, src)
}

/// A fresh vector with the bytes of `src[start..end]`.
pub fn copy_range(src: &[u8], start: usize, end: usize) -> (r: Vec<u8>)
    requires
        start <= end <= src@.len(),
    ensures
        r@ == src@.subrange(start as int, end as int),
{
    let mut out: Vec<u8> = Vec::new();
    let mut j: usize = start;
    while j < end
        invariant
            start <= j <= end <= src@.len(),
            out@ == src@.subrange(start as int, j as int),
        decreases end - j,
    {
        out.push(src[j]);
        j = j + 1;
        assert(out@ =~= src@.subrange(start as int, j as int));
    }
    out
}

/// Whether the little-endian value of `s` is zero.
pub fn bytes_all_zero(s: &[u8]) -> (r: bool)
    ensures
        r == (le_val(s@) == 0),
{
    let mut j: usize = 0;
    let mut all: bool = true;
    while j < s.len()
        invariant
            j <= s@.len(),
            all == (forall|i: int| 0 <= i < j ==> s@[i] == 0),
        decreases s@.len() - j,
    {
        if s[j] != 0 {
            all = false;
        }
        j = j + 1;
    }
    proof {
        lemma_le_val_zero(s@);
    }
    all
}

/// The 8-byte little-endian encoding of `n`.
pub fn u64_le_bytes(n: u64) -> (r: Vec<u8>)
    ensures
        r@ == le_bytes(n as nat, 8),
{
    let mut out: Vec<u8> = Vec::new();
    let mut x: u64 = n;
    let mut j: usize = 0;
    while j < 8
        invariant
            j <= 8,
            le_bytes(n as nat, 8) == out@ + le_bytes(x as nat, (8 - j) as nat),
            out@.len() == j,
        decreases 8 - j,
    {
        let ghost out_pre = out@;
        let ghost x_pre = x as nat;
        out.push((x % 256) as u8);
        x = x / 256;
        j = j + 1;
        proof {
            assert(le_bytes(x_pre, (9 - j) as nat) == seq![(x_pre % 256) as u8]
                + le_bytes(x_pre / 256, (8 - j) as nat));
            assert(out@ =~= out_pre + seq![(x_pre % 256) as u8]);
            assert(out_pre + (seq![(x_pre % 256) as u8] + le_bytes(x as nat, (8 - j) as nat))
                =~= out@ + le_bytes(x as nat, (8 - j) as nat));
        }
    }
    assert(out@ =~= le_bytes(n as nat, 8));
    out
}

} // verus!
