use vstd::prelude::*;

use crate::array::NdArray;
use crate::elem::Element;
use crate::layout::prod_of;
use crate::layout::sizes_fit;
use crate::layout::strides_fit;

verus! {

/// Errors reported when a flat data source does not fill a shape; the
/// difference is carried in elements.
#[derive(Clone, Copy, Debug, PartialEq, Eq, Structural)]
pub enum ShapeError {
    /// The data exceeds the given shape by this many elements.
    TooLong(usize),
    /// The data cannot fill the given shape: this many elements are missing.
    TooShort(usize),
}

/// Implemented by types that can be converted into an `N`-dimensional array.
pub trait ArrayLike<T: Element, const N: usize>: Sized {
    /// The flat sequence of elements the source holds.
    spec fn flat(&self) -> Seq<T>;

    /// Converts the source into an array of the given shape, consuming it.
    /// Fails exactly when the source's length differs from the product of
    /// the shape, and then says by how many elements the two differ.
    fn into_array(self, shape: &[usize; N]) -> (r: Result<NdArray<T, N>, ShapeError>)
        requires
            N >= 1,
            sizes_fit(shape@),
            prod_of(shape@) == self.flat().len() ==> strides_fit(shape@, T::esize_spec()),
        ensures
            match r {
                Ok(a) => {
                    &&& prod_of(shape@) == self.flat().len()
                    &&& a.wf()
                    &&& a.laid_out()
                    &&& a@ == self.flat()
                    &&& a.spec_shape() == shape@
                },
                Err(e) => match e {
                    ShapeError::TooLong(d) => {
                        &&& self.flat().len() > prod_of(shape@)
                        &&& d as int == self.flat().len() - prod_of(shape@)
                    },
                    ShapeError::TooShort(d) => {
                        &&& self.flat().len() < prod_of(shape@)
                        &&& d as int == prod_of(shape@) - self.flat().len()
                    },
                },
            },
    ;

    /// Converts a borrowed source into an array of the given shape, copying
    /// its elements, under the same contract as `into_array`.
    fn array(&self, shape: &[usize; N]) -> (r: Result<NdArray<T, N>, ShapeError>)
        requires
            N >= 1,
            sizes_fit(shape@),
            prod_of(shape@) == self.flat().len() ==> strides_fit(shape@, T::esize_spec()),
        ensures
            match r {
                Ok(a) => {
                    &&& prod_of(shape@) == self.flat().len()
                    &&& a.wf()
                    &&& a.laid_out()
                    &&& a@ == self.flat()
                    &&& a.spec_shape() == shape@
                },
                Err(e) => match e {
                    ShapeError::TooLong(d) => {
                        &&& self.flat().len() > prod_of(shape@)
                        &&& d as int == self.flat().len() - prod_of(shape@)
                    },
                    ShapeError::TooShort(d) => {
                        &&& self.flat().len() < prod_of(shape@)
                        &&& d as int == prod_of(shape@) - self.flat().len()
                    },
                },
            },
    ;
}

impl<T: Element, const N: usize> ArrayLike<T, N> for Vec<T> {
    open spec fn flat(&self) -> Seq<T> {
        self@
    }

    fn into_array(self, shape: &[usize; N]) -> (r: Result<NdArray<T, N>, ShapeError>) {
        self.array(shape)
    }

    fn array(&self, shape: &[usize; N]) -> (r: Result<NdArray<T, N>, ShapeError>) {
        let size: usize = NdArray::<T, N>::size_from_shape(shape);
        let n: usize = self.len();
        if n > size {
            Err(ShapeError::TooLong(n - size))
        } else if n < size {
            Err(ShapeError::TooShort(size - n))
        } else {
            match NdArray::<T, N>::from(self.as_slice(), *shape) {
                Ok(a) => Ok(a),
                Err(e) => {
                    proof {
                        assert(false);
                    }
                    Err(ShapeError::TooShort(0))
                },
            }
        }
    }
}

} // verus!
