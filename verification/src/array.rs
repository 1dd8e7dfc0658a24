use vstd::prelude::*;
use vstd::slice::slice_to_vec;

use crate::elem::Element;
use crate::errors::NdError;
use crate::layout::flat_of;
use crate::layout::lemma_prod_ones_last;
use crate::layout::lemma_flat_out_of_bounds;
use crate::layout::lemma_prod_from_ge;
use crate::layout::lemma_prod_from_nonneg;
use crate::layout::lemma_prod_from_pos;
use crate::layout::lemma_prod_from_zero;
use crate::layout::lemma_raw_offset_mono;
use crate::layout::lemma_raw_offset_nonneg;
use crate::layout::lemma_strides_fit_sizes_fit;
use crate::layout::prod_from;
use crate::layout::prod_of;
use crate::layout::raw_offset;
use crate::layout::sizes_fit;
use crate::layout::stride_law;
use crate::layout::strides_fit;
use crate::progression::eff_step;
use crate::progression::lemma_prog_index;
use crate::progression::prog_fits;
use crate::progression::prog_len;
use crate::progression::prog_val;
use crate::progression::spec_size_from_range;

verus! {

/// An n-dimensional array: exclusively owned contiguous row-major storage of
/// `len` elements, a shape with one size per axis, and the strides that
/// convert a multi-index into a flat offset. The rank `N` is fixed for the
/// lifetime of a value. The buffer is owned by the value alone and released
/// exactly once, when the value is dropped.
#[derive(Debug)]
pub struct NdArray<T, const N: usize> {
    data: Vec<T>,
    len: usize,
    shape: [usize; N],
    strides: [usize; N],
}

/// A one-dimensional array.
pub type Array<T> = NdArray<T, 1>;

/// A two-dimensional array.
pub type Array2<T> = NdArray<T, 2>;

/// A three-dimensional array.
pub type Array3<T> = NdArray<T, 3>;

/// A four-dimensional array.
pub type Array4<T> = NdArray<T, 4>;

impl<T: Element, const N: usize> View for NdArray<T, N> {
    type V = Seq<T>;

    /// The flat contents of the array, in row-major order.
    closed spec fn view(&self) -> Seq<T> {
        self.data@
    }
}

impl<T: Element, const N: usize> NdArray<T, N> {
    /// The recorded total element count.
    pub closed spec fn spec_len(self) -> usize {
        self.len
    }

    /// The current shape, one size per axis, outermost first.
    pub closed spec fn spec_shape(self) -> Seq<usize> {
        self.shape@
    }

    /// The current strides, one per axis.
    pub closed spec fn spec_strides(self) -> Seq<usize> {
        self.strides@
    }

    /// Well-formedness: the recorded length matches the stored contents, the
    /// last stride is a usable (positive) divisor, and the buffer's byte
    /// extent fits in a `usize`. Every constructor establishes this and
    /// every operation preserves it.
    pub closed spec fn wf(self) -> bool {
        &&& N >= 1
        &&& self.len == self.data@.len()
        &&& self.strides@[N as int - 1] >= 1
        &&& self.len * self.strides@[N as int - 1] <= usize::MAX
    }

    /// A laid-out array: the length is the product of the shape, and the
    /// strides obey the row-major stride law. This holds for every array
    /// built with a buffer, and after every reshape; the empty placeholder
    /// made by `new` is the one state that does not claim it.
    pub open spec fn laid_out(self) -> bool {
        &&& prod_of(self.spec_shape()) == self.spec_len() as int
        &&& stride_law(self.spec_strides(), self.spec_shape(), T::esize_spec())
    }

    /// The flat position the multi-index `index` resolves to under the
    /// current strides.
    pub open spec fn flat_index_of(self, index: [usize; N]) -> int {
        flat_of(index@, self.spec_strides())
    }

    /// The element stored at the flat position `index` resolves to.
    pub open spec fn read_at(self, index: [usize; N]) -> T {
        self@[self.flat_index_of(index)]
    }

    /// Returns the total element count.
    pub fn len(&self) -> (r: &usize)
        ensures
            *r == self.spec_len(),
    {
        &self.len
    }

    /// Returns the shape.
    pub fn shape(&self) -> (r: &[usize; N])
        ensures
            r@ == self.spec_shape(),
    {
        &self.shape
    }

    /// Returns the strides.
    pub fn strides(&self) -> (r: &[usize; N])
        ensures
            r@ == self.spec_strides(),
    {
        &self.strides
    }

    /// Creates an empty array: no elements, no allocation, shape and strides
    /// set to all-ones placeholders whose axes are not yet meaningful.
    pub fn new() -> (r: Self)
        requires
            N >= 1,
        ensures
            r.wf(),
            r.spec_len() == 0,
            r@ == Seq::<T>::empty(),
            r.spec_shape() == Seq::new(N as nat, |i: int| 1usize),
            r.spec_strides() == Seq::new(N as nat, |i: int| 1usize),
    {
        let r = NdArray { data: Vec::new(), len: 0, shape: [1; N], strides: [1; N] };
        proof {
            assert(r.spec_shape() =~= Seq::new(N as nat, |i: int| 1usize));
            assert(r.spec_strides() =~= Seq::new(N as nat, |i: int| 1usize));
            assert(r@ =~= Seq::<T>::empty());
        }
        r
    }

    /// Computes the strides of a shape: the last stride is the element size,
    /// and each earlier stride is the following stride scaled by the
    /// following shape entry, so the innermost axis is contiguous.
    fn stride(shape: &[usize; N]) -> (r: [usize; N])
        requires
            N >= 1,
            strides_fit(shape@, T::esize_spec()),
        ensures
            stride_law(r@, shape@, T::esize_spec()),
    {
        let mut strides: [usize; N] = [1; N];
        proof {
            T::lemma_type_facts();
            assert(prod_from(shape@, N as int) == 1);
        }
        let esize: usize = T::elem_size();
        strides[N - 1] = esize;
        let mut i: usize = N - 1;
        while i > 0
            invariant
                0 <= i <= N - 1,
                N >= 1,
                strides@.len() == N,
                strides_fit(shape@, T::esize_spec()),
                esize as int == T::esize_spec(),
                forall|j: int|
                    i <= j < N ==> #[trigger] strides@[j] == T::esize_spec() * prod_from(
                        shape@,
                        j + 1,
                    ),
            decreases i,
        {
            proof {
                assert(prod_from(shape@, i as int) == shape@[i as int] * prod_from(
                    shape@,
                    i as int + 1,
                ));
                assert((T::esize_spec() * prod_from(shape@, i as int + 1)) * shape@[i as int]
                    == T::esize_spec() * (shape@[i as int] * prod_from(shape@, i as int + 1)))
                    by (nonlinear_arith);
            }
            let next: usize = strides[i] * shape[i];
            strides[i - 1] = next;
            i = i - 1;
        }
        proof {
            assert forall|j: int| 0 <= j < N - 1 implies strides@[j] == #[trigger] (strides@[j + 1]
                * shape@[j + 1]) by {
                assert(strides@[j] == T::esize_spec() * prod_from(shape@, j + 1));
                assert(strides@[j + 1] == T::esize_spec() * prod_from(shape@, j + 1 + 1));
                assert(prod_from(shape@, j + 1) == shape@[j + 1] * prod_from(shape@, j + 1 + 1));
                assert((T::esize_spec() * prod_from(shape@, j + 1 + 1)) * shape@[j + 1]
                    == T::esize_spec() * (shape@[j + 1] * prod_from(shape@, j + 1 + 1)))
                    by (nonlinear_arith);
            }
            assert(strides@[N as int - 1] == T::esize_spec() * prod_from(
                shape@,
                N as int - 1 + 1,
            ));
            assert(prod_from(shape@, N as int - 1 + 1) == 1);
        }
        strides
    }

    /// Computes the total element count of a shape: the product of its
    /// entries.
    pub fn size_from_shape(shape: &[usize; N]) -> (r: usize)
        requires
            sizes_fit(shape@),
        ensures
            r as int == prod_of(shape@),
    {
        let mut t_size: usize = 1;
        let mut i: usize = N;
        while i > 0
            invariant
                0 <= i <= N,
                shape@.len() == N,
                sizes_fit(shape@),
                t_size as int == prod_from(shape@, i as int),
            decreases i,
        {
            proof {
                assert(prod_from(shape@, i as int - 1) == shape@[i - 1] * prod_from(
                    shape@,
                    i as int,
                ));
            }
            t_size = shape[i - 1] * t_size;
            i = i - 1;
        }
        t_size
    }

    /// Decides whether the product of the shape equals `expected`, without
    /// any bound on the shape: a product too large for the machine cannot
    /// equal an `expected` that fits in one.
    fn shape_matches(shape: &[usize; N], expected: usize) -> (b: bool)
        ensures
            b == (prod_of(shape@) == expected as int),
    {
        if expected == 0 {
            let mut i: usize = 0;
            while i < N
                invariant
                    0 <= i <= N,
                    expected == 0,
                    shape@.len() == N,
                    forall|j: int| 0 <= j < i ==> #[trigger] shape@[j] >= 1,
                decreases N - i,
            {
                if shape[i] == 0 {
                    proof {
                        lemma_prod_from_zero(shape@, 0, i as int);
                    }
                    return true;
                }
                i = i + 1;
            }
            proof {
                lemma_prod_from_pos(shape@, 0);
            }
            false
        } else {
            let mut acc: usize = 1;
            let mut i: usize = N;
            while i > 0
                invariant
                    0 <= i <= N,
                    expected >= 1,
                    shape@.len() == N,
                    acc as int == prod_from(shape@, i as int),
                decreases i,
            {
                proof {
                    assert(prod_from(shape@, i as int - 1) == shape@[i - 1] * prod_from(
                        shape@,
                        i as int,
                    ));
                }
                match shape[i - 1].checked_mul(acc) {
                    Some(p) => {
                        acc = p;
                    },
                    None => {
                        proof {
                            if exists|j: int| 0 <= j < i - 1 && shape@[j] == 0 {
                                let j = choose|j: int| 0 <= j < i - 1 && shape@[j] == 0;
                                lemma_prod_from_zero(shape@, 0, j);
                            } else {
                                lemma_prod_from_ge(shape@, 0, i as int - 1);
                            }
                        }
                        return false;
                    },
                }
                i = i - 1;
            }
            acc == expected
        }
    }

    /// Creates an array that copies an externally supplied flat sequence and
    /// takes the given shape. Fails with `ShapeMismatch` exactly when the
    /// data's length differs from the product of the shape; on success the
    /// strides are computed from the shape and the length recorded.
    pub fn from(arr: &[T], shape: [usize; N]) -> (r: Result<Self, NdError>)
        requires
            N >= 1,
            prod_of(shape@) == arr@.len() ==> strides_fit(shape@, T::esize_spec()),
        ensures
            match r {
                Ok(a) => {
                    &&& prod_of(shape@) == arr@.len()
                    &&& a.wf()
                    &&& a.laid_out()
                    &&& a@ == arr@
                    &&& a.spec_shape() == shape@
                    &&& a.spec_len() == arr@.len()
                },
                Err(e) => {
                    &&& e == NdError::ShapeMismatch
                    &&& prod_of(shape@) != arr@.len()
                },
            },
    {
        let len: usize = arr.len();
        if !Self::shape_matches(&shape, len) {
            return Err(NdError::ShapeMismatch);
        }
        let strides: [usize; N] = Self::stride(&shape);
        let data: Vec<T> = slice_to_vec(arr);
        proof {
            T::lemma_type_facts();
            assert(strides@[N as int - 1] == T::esize_spec());
            assert(T::esize_spec() * prod_from(shape@, 0) <= usize::MAX);
            lemma_prod_from_nonneg(shape@, 0);
            assert(len as int * T::esize_spec() <= usize::MAX) by (nonlinear_arith)
                requires
                    T::esize_spec() * prod_from(shape@, 0) <= usize::MAX,
                    len as int == prod_from(shape@, 0),
            ;
        }
        Ok(NdArray { data, len, shape, strides })
    }

    /// Replaces the shape with `shape` and recomputes the strides. Fails
    /// with `ShapeMismatch` exactly when the product of the new shape
    /// differs from the current length; the array is then left unchanged.
    /// The element data never moves: the flat contents before and after a
    /// reshape are the same sequence.
    pub fn reshape(&mut self, shape: [usize; N]) -> (r: Result<(), NdError>)
        requires
            old(self).wf(),
            prod_of(shape@) == old(self).spec_len() as int ==> strides_fit(
                shape@,
                T::esize_spec(),
            ),
        ensures
            final(self).wf(),
            final(self)@ == old(self)@,
            final(self).spec_len() == old(self).spec_len(),
            match r {
                Ok(u) => {
                    &&& prod_of(shape@) == old(self).spec_len() as int
                    &&& final(self).spec_shape() == shape@
                    &&& final(self).laid_out()
                },
                Err(e) => {
                    &&& e == NdError::ShapeMismatch
                    &&& prod_of(shape@) != old(self).spec_len() as int
                    &&& *final(self) == *old(self)
                },
            },
    {
        if !Self::shape_matches(&shape, self.len) {
            return Err(NdError::ShapeMismatch);
        }
        self.shape = shape;
        self.strides = Self::stride(&shape);
        proof {
            T::lemma_type_facts();
            assert(self.strides@[N as int - 1] == T::esize_spec());
            assert(T::esize_spec() * prod_from(shape@, 0) <= usize::MAX);
            assert(self.len as int * T::esize_spec() <= usize::MAX) by (nonlinear_arith)
                requires
                    T::esize_spec() * prod_from(shape@, 0) <= usize::MAX,
                    self.len as int == prod_from(shape@, 0),
            ;
        }
        Ok(())
    }

    /// Computes the parity-based size estimate for a stepped progression
    /// over the half-open span `pos.0 .. pos.1`: the absolute span when the
    /// step is zero, otherwise the quotient of span and step, plus one when
    /// span and step share their parity.
    pub fn size_from_range(pos: (isize, isize), step: usize) -> (r: usize)
        requires
            isize::MIN < pos.1 - pos.0 <= isize::MAX,
        ensures
            r as int == spec_size_from_range(pos.0 as int, pos.1 as int, step as int),
    {
        let diff: isize = pos.1 - pos.0;
        let range: usize = (if diff < 0 {
            -diff
        } else {
            diff
        }) as usize;
        // Avoid a division fault: a zero step means every integer is included.
        if step == 0 {
            return range;
        }
        if range % 2 == step % 2 {
            (range / step) + 1
        } else {
            range / step
        }
    }

    /// Allocates `product(shape)` elements, every one set to `val`, with
    /// strides computed from the shape.
    fn values(val: T, shape: [usize; N]) -> (r: Self)
        requires
            N >= 1,
            strides_fit(shape@, T::esize_spec()),
        ensures
            r.wf(),
            r.laid_out(),
            r.spec_shape() == shape@,
            r@.len() == prod_of(shape@),
            forall|k: int| 0 <= k < r@.len() ==> r@[k] == val,
    {
        proof {
            T::lemma_type_facts();
            lemma_strides_fit_sizes_fit(shape@, T::esize_spec());
        }
        let size: usize = Self::size_from_shape(&shape);
        let mut vec: Vec<T> = Vec::new();
        let mut i: usize = 0;
        while i < size
            invariant
                0 <= i <= size,
                vec@.len() == i,
                forall|k: int| 0 <= k < i ==> vec@[k] == val,
            decreases size - i,
        {
            vec.push(val);
            i = i + 1;
        }
        let strides: [usize; N] = Self::stride(&shape);
        proof {
            assert(strides@[N as int - 1] == T::esize_spec());
            assert(T::esize_spec() * prod_from(shape@, 0) <= usize::MAX);
            assert(size as int * T::esize_spec() <= usize::MAX) by (nonlinear_arith)
                requires
                    T::esize_spec() * prod_from(shape@, 0) <= usize::MAX,
                    size as int == prod_from(shape@, 0),
            ;
        }
        NdArray { data: vec, len: size, shape, strides }
    }

    /// Creates an array of the given shape completely filled with the
    /// type's zero.
    pub fn zeros(shape: [usize; N]) -> (r: Self)
        requires
            N >= 1,
            strides_fit(shape@, T::esize_spec()),
        ensures
            r.wf(),
            r.laid_out(),
            r.spec_shape() == shape@,
            r@.len() == prod_of(shape@),
            forall|k: int| 0 <= k < r@.len() ==> r@[k] == T::spec_zero(),
            forall|k: int| 0 <= k < r@.len() ==> (#[trigger] r@[k]).to_int() == 0,
    {
        proof {
            T::lemma_type_facts();
        }
        Self::values(T::zero_elem(), shape)
    }

    /// Creates an array of the given shape completely filled with the
    /// type's one.
    pub fn ones(shape: [usize; N]) -> (r: Self)
        requires
            N >= 1,
            strides_fit(shape@, T::esize_spec()),
        ensures
            r.wf(),
            r.laid_out(),
            r.spec_shape() == shape@,
            r@.len() == prod_of(shape@),
            forall|k: int| 0 <= k < r@.len() ==> r@[k] == T::spec_one(),
            forall|k: int| 0 <= k < r@.len() ==> (#[trigger] r@[k]).to_int() == 1,
    {
        proof {
            T::lemma_type_facts();
        }
        Self::values(T::one_elem(), shape)
    }

    /// Builds the array whose flat contents are the arithmetic progression
    /// from `range.0` (inclusive) to `range.1` (exclusive) advancing by
    /// `range.2`, a zero step meaning no skipping. Every axis takes size
    /// one except the last, which receives every generated value. Fails
    /// with `InvalidRange` exactly when the start exceeds the end, and with
    /// `ConversionFailure` exactly when some generated value cannot be
    /// represented in the element type.
    fn range(range: (isize, isize, usize)) -> (r: Result<Self, NdError>)
        requires
            N >= 1,
            (range.0 <= range.1 && prog_fits(
                range.0 as int,
                range.1 as int,
                eff_step(range.2 as int),
                T::min_spec(),
                T::max_spec(),
            )) ==> T::esize_spec() * prog_len(
                range.0 as int,
                range.1 as int,
                eff_step(range.2 as int),
            ) <= usize::MAX,
        ensures
            r is Ok <==> (range.0 <= range.1 && prog_fits(
                range.0 as int,
                range.1 as int,
                eff_step(range.2 as int),
                T::min_spec(),
                T::max_spec(),
            )),
            match r {
                Ok(a) => {
                    &&& a.wf()
                    &&& a.laid_out()
                    &&& a.spec_len() == prog_len(
                        range.0 as int,
                        range.1 as int,
                        eff_step(range.2 as int),
                    )
                    &&& a@.len() == a.spec_len()
                    &&& forall|k: int|
                        0 <= k < a@.len() ==> (#[trigger] a@[k]).to_int() == prog_val(
                            range.0 as int,
                            eff_step(range.2 as int),
                            k,
                        )
                    &&& a.spec_shape().len() == N
                    &&& a.spec_shape()[N as int - 1] == a.spec_len()
                    &&& forall|j: int| 0 <= j < N - 1 ==> a.spec_shape()[j] == 1
                },
                Err(e) => if range.0 > range.1 {
                    e == NdError::InvalidRange
                } else {
                    e == NdError::ConversionFailure
                },
            },
    {
        let ghost start = range.0 as int;
        let ghost end = range.1 as int;
        let ghost step = eff_step(range.2 as int);
        if range.0 > range.1 {
            return Err(NdError::InvalidRange);
        }
        let step_eff: usize = if range.2 == 0 {
            1
        } else {
            range.2
        };
        let mut data: Vec<T> = Vec::new();
        let mut i: i128 = range.0 as i128;
        let e128: i128 = range.1 as i128;
        let st128: i128 = step_eff as i128;
        while i < e128
            invariant
                N >= 1,
                start == range.0 as int,
                end == range.1 as int,
                step == eff_step(range.2 as int),
                start <= end,
                1 <= step <= usize::MAX,
                st128 as int == step,
                e128 as int == end,
                start >= isize::MIN,
                end <= isize::MAX,
                start <= i as int,
                i as int == prog_val(start, step, data@.len() as int),
                data@.len() <= prog_len(start, end, step),
                forall|k: int|
                    0 <= k < data@.len() ==> (#[trigger] data@[k]).to_int() == prog_val(
                        start,
                        step,
                        k,
                    ),
                forall|k: int|
                    0 <= k < data@.len() ==> T::min_spec() <= #[trigger] prog_val(start, step, k)
                        <= T::max_spec(),
            decreases prog_len(start, end, step) - data@.len(),
        {
            let ghost k = data@.len() as int;
            proof {
                lemma_prog_index(start, end, step, k);
            }
            let v: T = match T::from_isize(i as isize) {
                Some(v) => v,
                None => {
                    proof {
                        assert(!prog_fits(start, end, step, T::min_spec(), T::max_spec()));
                    }
                    return Err(NdError::ConversionFailure);
                },
            };
            data.push(v);
            i = i + st128;
            proof {
                assert((k + 1) * step == k * step + step) by (nonlinear_arith);
            }
        }
        let ghost count = data@.len() as int;
        proof {
            lemma_prog_index(start, end, step, count);
            assert(count == prog_len(start, end, step));
            assert(prog_fits(start, end, step, T::min_spec(), T::max_spec()));
            T::lemma_type_facts();
        }
        let len: usize = data.len();
        let mut shape: [usize; N] = [1; N];
        shape[N - 1] = len;
        proof {
            assert forall|k: int| 0 <= k <= N implies T::esize_spec() * #[trigger] prod_from(
                shape@,
                k,
            ) <= usize::MAX by {
                lemma_prod_ones_last(shape@, len, k);
            }
        }
        let strides: [usize; N] = Self::stride(&shape);
        proof {
            lemma_prod_ones_last(shape@, len, 0);
            assert(strides@[N as int - 1] == T::esize_spec());
            assert(len as int * T::esize_spec() <= usize::MAX) by (nonlinear_arith)
                requires
                    T::esize_spec() * len as int <= usize::MAX,
            ;
        }
        Ok(NdArray { data, len, shape, strides })
    }

    /// Creates an array whose flat contents are `0, 1, ...` strictly below
    /// `range`, all axes of size one except the last.
    pub fn arange(range: usize) -> (r: Result<Self, NdError>)
        requires
            N >= 1,
            range <= isize::MAX,
            prog_fits(0, range as int, 1, T::min_spec(), T::max_spec()) ==> T::esize_spec()
                * prog_len(0, range as int, 1) <= usize::MAX,
        ensures
            r is Ok <==> prog_fits(0, range as int, 1, T::min_spec(), T::max_spec()),
            match r {
                Ok(a) => {
                    &&& a.wf()
                    &&& a.laid_out()
                    &&& a.spec_len() == prog_len(0, range as int, 1)
                    &&& a@.len() == a.spec_len()
                    &&& forall|k: int|
                        0 <= k < a@.len() ==> (#[trigger] a@[k]).to_int() == prog_val(0, 1, k)
                    &&& a.spec_shape().len() == N
                    &&& a.spec_shape()[N as int - 1] == a.spec_len()
                    &&& forall|j: int| 0 <= j < N - 1 ==> a.spec_shape()[j] == 1
                },
                Err(e) => e == NdError::ConversionFailure,
            },
    {
        Self::range((0, range as isize, 0))
    }

    /// Creates an array whose flat contents are `0, step, 2 * step, ...`
    /// strictly below `range`, all axes of size one except the last.
    pub fn arange_with_step(range: usize, step: usize) -> (r: Result<Self, NdError>)
        requires
            N >= 1,
            range <= isize::MAX,
            prog_fits(0, range as int, eff_step(step as int), T::min_spec(), T::max_spec())
                ==> T::esize_spec() * prog_len(0, range as int, eff_step(step as int))
                <= usize::MAX,
        ensures
            r is Ok <==> prog_fits(0, range as int, eff_step(step as int), T::min_spec(), T::max_spec()),
            match r {
                Ok(a) => {
                    &&& a.wf()
                    &&& a.laid_out()
                    &&& a.spec_len() == prog_len(0, range as int, eff_step(step as int))
                    &&& a@.len() == a.spec_len()
                    &&& forall|k: int|
                        0 <= k < a@.len() ==> (#[trigger] a@[k]).to_int() == prog_val(
                            0,
                            eff_step(step as int),
                            k,
                        )
                    &&& a.spec_shape().len() == N
                    &&& a.spec_shape()[N as int - 1] == a.spec_len()
                    &&& forall|j: int| 0 <= j < N - 1 ==> a.spec_shape()[j] == 1
                },
                Err(e) => e == NdError::ConversionFailure,
            },
    {
        Self::range((0, range as isize, step))
    }

    /// Creates an array whose flat contents are the integers from
    /// `ranges.0` (inclusive) to `ranges.1` (exclusive), all axes of size
    /// one except the last. Fails with `InvalidRange` exactly when the
    /// start exceeds the end.
    pub fn ranges(ranges: (isize, isize)) -> (r: Result<Self, NdError>)
        requires
            N >= 1,
            (ranges.0 <= ranges.1 && prog_fits(
                ranges.0 as int,
                ranges.1 as int,
                1,
                T::min_spec(),
                T::max_spec(),
            )) ==> T::esize_spec() * prog_len(ranges.0 as int, ranges.1 as int, 1) <= usize::MAX,
        ensures
            r is Ok <==> (ranges.0 <= ranges.1 && prog_fits(
                ranges.0 as int,
                ranges.1 as int,
                1,
                T::min_spec(),
                T::max_spec(),
            )),
            match r {
                Ok(a) => {
                    &&& a.wf()
                    &&& a.laid_out()
                    &&& a.spec_len() == prog_len(ranges.0 as int, ranges.1 as int, 1)
                    &&& a@.len() == a.spec_len()
                    &&& forall|k: int|
                        0 <= k < a@.len() ==> (#[trigger] a@[k]).to_int() == prog_val(
                            ranges.0 as int,
                            1,
                            k,
                        )
                    &&& a.spec_shape().len() == N
                    &&& a.spec_shape()[N as int - 1] == a.spec_len()
                    &&& forall|j: int| 0 <= j < N - 1 ==> a.spec_shape()[j] == 1
                },
                Err(e) => if ranges.0 > ranges.1 {
                    e == NdError::InvalidRange
                } else {
                    e == NdError::ConversionFailure
                },
            },
    {
        Self::range((ranges.0, ranges.1, 0))
    }

    /// Creates an array whose flat contents advance from `ranges.0`
    /// (inclusive) by `step` while strictly below `ranges.1`, all axes of
    /// size one except the last. Fails with `InvalidRange` exactly when the
    /// start exceeds the end.
    pub fn ranges_with_step(ranges: (isize, isize), step: usize) -> (r: Result<Self, NdError>)
        requires
            N >= 1,
            (ranges.0 <= ranges.1 && prog_fits(
                ranges.0 as int,
                ranges.1 as int,
                eff_step(step as int),
                T::min_spec(),
                T::max_spec(),
            )) ==> T::esize_spec() * prog_len(
                ranges.0 as int,
                ranges.1 as int,
                eff_step(step as int),
            ) <= usize::MAX,
        ensures
            r is Ok <==> (ranges.0 <= ranges.1 && prog_fits(
                ranges.0 as int,
                ranges.1 as int,
                eff_step(step as int),
                T::min_spec(),
                T::max_spec(),
            )),
            match r {
                Ok(a) => {
                    &&& a.wf()
                    &&& a.laid_out()
                    &&& a.spec_len() == prog_len(
                        ranges.0 as int,
                        ranges.1 as int,
                        eff_step(step as int),
                    )
                    &&& a@.len() == a.spec_len()
                    &&& forall|k: int|
                        0 <= k < a@.len() ==> (#[trigger] a@[k]).to_int() == prog_val(
                            ranges.0 as int,
                            eff_step(step as int),
                            k,
                        )
                    &&& a.spec_shape().len() == N
                    &&& a.spec_shape()[N as int - 1] == a.spec_len()
                    &&& forall|j: int| 0 <= j < N - 1 ==> a.spec_shape()[j] == 1
                },
                Err(e) => if ranges.0 > ranges.1 {
                    e == NdError::InvalidRange
                } else {
                    e == NdError::ConversionFailure
                },
            },
    {
        Self::range((ranges.0, ranges.1, step))
    }

    /// Resolves a multi-index to its flat position with checked arithmetic.
    /// An accumulation that exceeds the machine word is already beyond the
    /// buffer's byte extent, so it reports `IndexOutOfBounds`.
    fn resolve(&self, index: [usize; N]) -> (r: Result<usize, NdError>)
        requires
            self.wf(),
        ensures
            match r {
                Ok(f) => f as int == self.flat_index_of(index),
                Err(e) => {
                    &&& e == NdError::IndexOutOfBounds
                    &&& self.flat_index_of(index) >= self.spec_len()
                },
            },
    {
        let ghost st = self.spec_strides();
        let mut acc: usize = 0;
        let mut i: usize = 0;
        while i < N
            invariant
                0 <= i <= N,
                self.wf(),
                st == self.spec_strides(),
                index@.len() == N,
                st.len() == N,
                acc as int == raw_offset(index@, st, i as int),
            decreases N - i,
        {
            proof {
                lemma_raw_offset_nonneg(index@, st, i as int);
            }
            let overflowed: bool;
            match index[i].checked_mul(self.strides[i]) {
                Some(p) => {
                    match acc.checked_add(p) {
                        Some(s) => {
                            acc = s;
                            overflowed = false;
                        },
                        None => {
                            overflowed = true;
                        },
                    }
                },
                None => {
                    overflowed = true;
                },
            }
            if overflowed {
                proof {
                    lemma_raw_offset_mono(index@, st, i as int + 1, N as int);
                    lemma_flat_out_of_bounds(
                        raw_offset(index@, st, N as int),
                        st[N as int - 1] as int,
                        self.spec_len() as int,
                    );
                }
                return Err(NdError::IndexOutOfBounds);
            }
            i = i + 1;
        }
        Ok(acc / self.strides[N - 1])
    }

    /// Reads the element the multi-index resolves to. Fails with
    /// `IndexOutOfBounds` exactly when the resolved flat position is not
    /// less than the current length; no per-axis check is made.
    pub fn get(&self, index: [usize; N]) -> (r: Result<&T, NdError>)
        requires
            self.wf(),
        ensures
            match r {
                Ok(v) => {
                    &&& 0 <= self.flat_index_of(index) < self.spec_len()
                    &&& *v == self.read_at(index)
                },
                Err(e) => {
                    &&& e == NdError::IndexOutOfBounds
                    &&& self.flat_index_of(index) >= self.spec_len()
                },
            },
    {
        match self.resolve(index) {
            Ok(flat) => {
                if flat < self.len {
                    Ok(&self.data[flat])
                } else {
                    Err(NdError::IndexOutOfBounds)
                }
            },
            Err(e) => Err(e),
        }
    }

    /// Writes `value` at the element the multi-index resolves to; this is
    /// the only way element values change after construction. Fails with
    /// `IndexOutOfBounds` exactly when the resolved flat position is not
    /// less than the current length, and then leaves the array unchanged.
    pub fn set(&mut self, index: [usize; N], value: T) -> (r: Result<(), NdError>)
        requires
            old(self).wf(),
        ensures
            final(self).wf(),
            final(self).spec_shape() == old(self).spec_shape(),
            final(self).spec_strides() == old(self).spec_strides(),
            final(self).spec_len() == old(self).spec_len(),
            match r {
                Ok(u) => {
                    &&& 0 <= old(self).flat_index_of(index) < old(self).spec_len()
                    &&& final(self)@ == old(self)@.update(old(self).flat_index_of(index), value)
                },
                Err(e) => {
                    &&& e == NdError::IndexOutOfBounds
                    &&& old(self).flat_index_of(index) >= old(self).spec_len()
                    &&& *final(self) == *old(self)
                },
            },
    {
        match self.resolve(index) {
            Ok(flat) => {
                if flat < self.len {
                    self.data[flat] = value;
                    Ok(())
                } else {
                    Err(NdError::IndexOutOfBounds)
                }
            },
            Err(e) => Err(e),
        }
    }
}

/// Resolves a multi-index against strides, as the array's own indexing does:
/// the sum of index/stride products, divided by the last stride.
pub fn get_index<const N: usize>(index: &[usize; N], strides: &[usize; N]) -> (r: usize)
    requires
        N >= 1,
        strides@[N as int - 1] >= 1,
        raw_offset(index@, strides@, N as int) <= usize::MAX,
    ensures
        r as int == flat_of(index@, strides@),
{
    let mut idx: usize = 0;
    let mut i: usize = 0;
    while i < N
        invariant
            0 <= i <= N,
            N >= 1,
            index@.len() == N,
            strides@.len() == N,
            raw_offset(index@, strides@, N as int) <= usize::MAX,
            strides@[N as int - 1] >= 1,
            idx as int == raw_offset(index@, strides@, i as int),
        decreases N - i,
    {
        proof {
            lemma_raw_offset_nonneg(index@, strides@, i as int);
            lemma_raw_offset_mono(index@, strides@, i as int + 1, N as int);
        }
        idx = idx + index[i] * strides[i];
        i = i + 1;
    }
    idx / strides[N - 1]
}

/// Law: for any laid-out array — one built by a constructor that took a
/// shape, or brought into a new shape by `reshape` — the recorded length is
/// exactly the product of the shape.
pub proof fn lemma_len_is_shape_product<T: Element, const N: usize>(a: NdArray<T, N>)
    requires
        a.wf(),
        a.laid_out(),
    ensures
        prod_of(a.spec_shape()) == a.spec_len() as int,
        a@.len() == a.spec_len(),
{
}

/// Law: for any laid-out array, the strides obey the row-major stride law:
/// the last stride is the element size, and each stride before it is the
/// following stride scaled by the following shape entry.
pub proof fn lemma_stride_law_holds<T: Element, const N: usize>(a: NdArray<T, N>)
    requires
        a.wf(),
        a.laid_out(),
    ensures
        a.spec_strides().len() == N,
        a.spec_strides()[N as int - 1] == T::esize_spec(),
        forall|i: int|
            0 <= i < N - 1 ==> a.spec_strides()[i] == #[trigger] (a.spec_strides()[i + 1]
                * a.spec_shape()[i + 1]),
{
}

/// Law: writing a value at an in-bounds multi-index and then reading at the
/// same multi-index yields that value back. The hypotheses relating `post`
/// to `pre` are exactly what `set` ensures of the array it leaves behind.
pub proof fn lemma_write_read_round_trip<T: Element, const N: usize>(
    pre: NdArray<T, N>,
    post: NdArray<T, N>,
    index: [usize; N],
    v: T,
)
    requires
        pre.wf(),
        0 <= pre.flat_index_of(index) < pre.spec_len(),
        post@ == pre@.update(pre.flat_index_of(index), v),
        post.spec_strides() == pre.spec_strides(),
    ensures
        post.read_at(index) == v,
{
}

} // verus!
