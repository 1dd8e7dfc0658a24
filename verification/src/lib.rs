//! A minimal n-dimensional array container: fixed-rank, contiguous, row-major
//! storage with shape/stride based indexing. The crate proves the layout
//! invariants (length equals the shape product, the row-major stride law),
//! the resolution of a multi-index into a flat offset, and the contracts of
//! every constructor, including the arithmetic-progression family.

pub mod array;
pub mod elem;
pub mod errors;
pub mod layout;
pub mod progression;
pub mod traits;

pub use crate::array::Array;
pub use crate::array::Array2;
pub use crate::array::Array3;
pub use crate::array::Array4;
pub use crate::array::NdArray;
pub use crate::errors::NdError;
pub use crate::traits::ArrayLike;
pub use crate::traits::ShapeError;
