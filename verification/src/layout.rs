use vstd::prelude::*;

verus! {

/// Product of the shape entries from position `k` (inclusive) to the end.
/// `prod_from(s, 0)` is the total element count the shape `s` describes.
pub open spec fn prod_from(s: Seq<usize>, k: int) -> int
    decreases s.len() - k,
{
    if k < 0 || k >= s.len() {
        1
    } else {
        s[k] * prod_from(s, k + 1)
    }
}

/// Product of all shape entries: the total element count of the shape.
pub open spec fn prod_of(s: Seq<usize>) -> int {
    prod_from(s, 0)
}

/// Row-major stride law: the last stride is the element size, and each
/// earlier stride is the following stride scaled by the following shape
/// entry.
pub open spec fn stride_law(st: Seq<usize>, sh: Seq<usize>, esize: int) -> bool {
    &&& st.len() == sh.len()
    &&& st.len() >= 1
    &&& st[st.len() - 1] == esize
    &&& forall|i: int|
        0 <= i < st.len() - 1 ==> st[i] == #[trigger] (st[i + 1] * sh[i + 1])
}

/// Machine-limit side condition: with this element size, every suffix
/// product of the shape, scaled by the element size, fits in a `usize`.
/// This is exactly what lets the strides of the shape be computed without
/// overflow.
pub open spec fn strides_fit(sh: Seq<usize>, esize: int) -> bool {
    forall|k: int| 0 <= k <= sh.len() ==> esize * #[trigger] prod_from(sh, k) <= usize::MAX
}

/// Machine-limit side condition: every suffix product of the shape fits in a
/// `usize`, so the total element count can be computed without overflow.
pub open spec fn sizes_fit(sh: Seq<usize>) -> bool {
    forall|k: int| 0 <= k <= sh.len() ==> #[trigger] prod_from(sh, k) <= usize::MAX
}

/// Strides that fit for a positive element size leave every bare suffix
/// product within `usize` as well.
pub proof fn lemma_strides_fit_sizes_fit(sh: Seq<usize>, esize: int)
    requires
        esize >= 1,
        strides_fit(sh, esize),
    ensures
        sizes_fit(sh),
{
    assert forall|k: int| 0 <= k <= sh.len() implies #[trigger] prod_from(sh, k)
        <= usize::MAX by {
        lemma_prod_from_nonneg(sh, k);
        assert(prod_from(sh, k) <= esize * prod_from(sh, k)) by (nonlinear_arith)
            requires
                esize >= 1,
                prod_from(sh, k) >= 0,
        ;
    }
}

/// Sum of the first `n` index/stride products: the raw accumulated offset of
/// a multi-index.
pub open spec fn raw_offset(idx: Seq<usize>, st: Seq<usize>, n: int) -> int
    decreases n,
{
    if n <= 0 {
        0
    } else {
        raw_offset(idx, st, n - 1) + idx[n - 1] * st[n - 1]
    }
}

/// The flat element position a multi-index resolves to: the raw offset
/// divided by the last stride, which converts the byte-scaled accumulation
/// back into an element count.
pub open spec fn flat_of(idx: Seq<usize>, st: Seq<usize>) -> int
    recommends
        st.len() >= 1,
        st[st.len() - 1] >= 1,
{
    raw_offset(idx, st, st.len() as int) / (st[st.len() - 1] as int)
}

/// A suffix product of a shape is never negative.
pub proof fn lemma_prod_from_nonneg(s: Seq<usize>, k: int)
    ensures
        prod_from(s, k) >= 0,
    decreases s.len() - k,
{
    if 0 <= k < s.len() {
        lemma_prod_from_nonneg(s, k + 1);
        assert(s[k] * prod_from(s, k + 1) >= 0) by (nonlinear_arith)
            requires
                s[k] >= 0,
                prod_from(s, k + 1) >= 0,
        ;
    }
}

/// A zero entry at position `j` makes every suffix product starting at or
/// before `j` zero.
pub proof fn lemma_prod_from_zero(s: Seq<usize>, k: int, j: int)
    requires
        0 <= k <= j < s.len(),
        s[j] == 0,
    ensures
        prod_from(s, k) == 0,
    decreases j - k,
{
    if k < j {
        lemma_prod_from_zero(s, k + 1, j);
    }
}

/// If every entry from `k` on is at least one, the suffix product is at
/// least one.
pub proof fn lemma_prod_from_pos(s: Seq<usize>, k: int)
    requires
        forall|j: int| k <= j < s.len() ==> #[trigger] s[j] >= 1,
    ensures
        prod_from(s, k) >= 1,
    decreases s.len() - k,
{
    if 0 <= k < s.len() {
        lemma_prod_from_pos(s, k + 1);
        assert(s[k] * prod_from(s, k + 1) >= 1) by (nonlinear_arith)
            requires
                s[k] >= 1,
                prod_from(s, k + 1) >= 1,
        ;
    }
}

/// If every entry in `[k, m)` is at least one, extending the suffix from `m`
/// back to `k` cannot shrink the product.
pub proof fn lemma_prod_from_ge(s: Seq<usize>, k: int, m: int)
    requires
        0 <= k <= m <= s.len(),
        forall|j: int| k <= j < m ==> #[trigger] s[j] >= 1,
    ensures
        prod_from(s, k) >= prod_from(s, m),
    decreases m - k,
{
    if k < m {
        lemma_prod_from_ge(s, k + 1, m);
        lemma_prod_from_nonneg(s, m);
        assert(s[k] * prod_from(s, k + 1) >= prod_from(s, k + 1)) by (nonlinear_arith)
            requires
                s[k] >= 1,
                prod_from(s, k + 1) >= 0,
        ;
    }
}

/// In a shape whose entries are all one except the last, every suffix
/// product is the last entry, and the empty suffix is one.
pub proof fn lemma_prod_ones_last(s: Seq<usize>, c: usize, k: int)
    requires
        s.len() >= 1,
        forall|j: int| 0 <= j < s.len() - 1 ==> #[trigger] s[j] == 1,
        s[s.len() - 1] == c,
        0 <= k <= s.len(),
    ensures
        prod_from(s, k) == if k == s.len() {
            1int
        } else {
            c as int
        },
    decreases s.len() - k,
{
    if k < s.len() {
        lemma_prod_ones_last(s, c, k + 1);
    }
}

/// The raw offset of a multi-index is never negative.
pub proof fn lemma_raw_offset_nonneg(idx: Seq<usize>, st: Seq<usize>, n: int)
    ensures
        raw_offset(idx, st, n) >= 0,
    decreases n,
{
    if n > 0 {
        lemma_raw_offset_nonneg(idx, st, n - 1);
        assert(idx[n - 1] * st[n - 1] >= 0) by (nonlinear_arith)
            requires
                idx[n - 1] >= 0,
                st[n - 1] >= 0,
        ;
    }
}

/// Taking more index/stride terms into the raw offset cannot shrink it.
pub proof fn lemma_raw_offset_mono(idx: Seq<usize>, st: Seq<usize>, n: int, m: int)
    requires
        n <= m,
    ensures
        raw_offset(idx, st, n) <= raw_offset(idx, st, m),
    decreases m - n,
{
    if n < m {
        lemma_raw_offset_mono(idx, st, n, m - 1);
        assert(idx[m - 1] * st[m - 1] >= 0) by (nonlinear_arith)
            requires
                idx[m - 1] >= 0,
                st[m - 1] >= 0,
        ;
    }
}

/// A raw offset beyond `len` scaled by the divisor resolves to a flat
/// position at or beyond `len`.
pub proof fn lemma_flat_out_of_bounds(raw: int, d: int, len: int)
    requires
        d >= 1,
        len >= 0,
        raw > len * d,
    ensures
        raw / d >= len,
{
    assert(raw / d >= len) by (nonlinear_arith)
        requires
            d >= 1,
            len >= 0,
            raw > len * d,
    ;
}

} // verus!
