//! Copying of elements, and rows that lie behind one another in one buffer.

use vstd::prelude::*;

verus! {

/// Copies the elements of `src` behind those of `dst`.
pub(crate) fn append_copied<E: Copy>(dst: &mut Vec<E>, src: &[E])
    ensures
        final(dst)@ == old(dst)@ + src@,
{
    let ghost before = dst@;
    for i in 0..src.len()
        invariant
            dst@ == before + src@.take(i as int),
    {
        dst.push(src[i]);
        assert(src@.take(i + 1) =~= src@.take(i as int).push(src@[i as int]));
    }
    assert(src@.take(src@.len() as int) =~= src@);
}

/// A copy of the elements of `src`.
pub(crate) fn copied<E: Copy>(src: &[E]) -> (r: Vec<E>)
    ensures
        r@ == src@,
{
    let mut r: Vec<E> = Vec::new();
    append_copied(&mut r, src);
    assert(r@ =~= src@);
    r
}

/// Row `k` of rows of length `n` that lie behind one another in `buf`.
pub open spec fn row<E>(buf: Seq<E>, n: nat, k: int) -> Seq<E> {
    buf.subrange(k * n, (k + 1) * n)
}

/// Row `k` of `len` rows of length `n` lies inside their buffer.
pub proof fn lemma_row_bounds(k: int, len: int, n: nat)
    requires
        0 <= k < len,
    ensures
        0 <= k * n,
        k * n + n == (k + 1) * n,
        (k + 1) * n <= len * n,
{
    assert(0 <= k * n) by (nonlinear_arith)
        requires
            0 <= k,
            0 <= n,
    ;
    assert(k * n + n == (k + 1) * n) by (nonlinear_arith);
    assert((k + 1) * n <= len * n) by (nonlinear_arith)
        requires
            k + 1 <= len,
            0 <= n,
    ;
}

/// A row put behind `len` rows of length `n` is row `len`, and leaves the rows
/// before it as they are.
pub proof fn lemma_row_appended<E>(buf: Seq<E>, n: nat, len: nat, last: Seq<E>)
    requires
        buf.len() == len * n,
        last.len() == n,
    ensures
        (buf + last).len() == (len + 1) * n,
        row(buf + last, n, len as int) == last,
        forall|k: int| 0 <= k < len ==> row(buf + last, n, k) == #[trigger] row(buf, n, k),
{
    lemma_row_bounds(len as int, (len + 1) as int, n);
    assert(row(buf + last, n, len as int) =~= last);
    assert forall|k: int| 0 <= k < len implies row(buf + last, n, k) == #[trigger] row(
        buf,
        n,
        k,
    ) by {
        lemma_row_bounds(k, len as int, n);
        assert(row(buf + last, n, k) =~= row(buf, n, k));
    }
}

/// Rows cut a buffer up without loss: element `j` of row `k` is the element that
/// stands `j` places behind the `k` rows before it.
pub proof fn law_row_elements<E>(buf: Seq<E>, n: nat, len: nat, k: int)
    requires
        buf.len() == len * n,
        0 <= k < len,
    ensures
        row(buf, n, k).len() == n,
        forall|j: int| 0 <= j < n ==> #[trigger] row(buf, n, k)[j] == buf[k * n + j],
{
    lemma_row_bounds(k, len as int, n);
}

} // verus!
