use ndim::Array;
use ndim::Array2;
use ndim::Array3;
use ndim::Array4;
use ndim::NdArray;
use ndim::NdError;
use ndim::array::get_index;

// A new array is the empty placeholder: zero length, all-ones shape and
// strides, and every index out of bounds.
#[test]
fn new_is_empty_placeholder() {
    let data: NdArray<i8, 4> = Array4::<i8>::new();
    assert_eq!(*data.len(), 0);
    assert_eq!(*data.shape(), [1, 1, 1, 1]);
    assert_eq!(*data.strides(), [1, 1, 1, 1]);
    assert_eq!(data.get([0, 0, 0, 0]), Err(NdError::IndexOutOfBounds));
}

// The length of every constructed or reshaped array is the product of its
// shape.
#[test]
fn len_is_shape_product() {
    let shape: [usize; 3] = [2, 3, 4];
    let data: NdArray<u16, 3> = Array3::<u16>::zeros(shape);
    assert_eq!(*data.len(), 24);

    let mut ranged: NdArray<i32, 2> = Array2::<i32>::ranges((-3, 9)).unwrap();
    assert_eq!(*data.len(), data.shape().iter().product::<usize>());
    ranged.reshape([4, 3]).unwrap();
    assert_eq!(*ranged.len(), 12);
    assert_eq!(*ranged.len(), ranged.shape().iter().product::<usize>());
}

// The strides of every laid-out array obey the row-major stride law: the
// last stride is the element size, and each earlier stride is the next
// stride scaled by the next shape entry.
#[test]
fn strides_obey_stride_law() {
    let shape: [usize; 3] = [4, 2, 5];
    let data: NdArray<u32, 3> = Array3::<u32>::zeros(shape);
    let st: &[usize; 3] = data.strides();
    assert_eq!(st[2], 4);
    assert_eq!(st[1], st[2] * data.shape()[2]);
    assert_eq!(st[0], st[1] * data.shape()[1]);
    assert_eq!(*st, [40, 20, 4]);
}

// Writing a value at an in-bounds multi-index and reading at the same
// multi-index yields the value back, and no other element moves.
#[test]
fn write_then_read_round_trip() {
    let shape: [usize; 2] = [3, 2];
    let mut data: NdArray<i16, 2> = Array2::<i16>::zeros(shape);
    data.set([2, 1], -7).unwrap();
    assert_eq!(*data.get([2, 1]).unwrap(), -7);
    assert_eq!(*data.get([2, 0]).unwrap(), 0);
    assert_eq!(*data.get([0, 0]).unwrap(), 0);

    data.set([0, 1], 5).unwrap();
    assert_eq!(*data.get([0, 1]).unwrap(), 5);
    assert_eq!(*data.get([2, 1]).unwrap(), -7);
}

// Reshaping never moves element data: the flat sequence read through any
// shape decomposition of the same total length stays the same.
#[test]
fn reshape_preserves_flat_order() {
    let arr: [u32; 6] = [9, 8, 7, 6, 5, 4];
    let mut data: NdArray<u32, 2> = Array2::<u32>::from(&arr, [2, 3]).unwrap();

    let mut flat_before: Vec<u32> = Vec::new();
    for i in 0..2 {
        for j in 0..3 {
            flat_before.push(*data.get([i, j]).unwrap());
        }
    }
    assert_eq!(flat_before, arr.to_vec());

    data.reshape([3, 2]).unwrap();
    let mut flat_after: Vec<u32> = Vec::new();
    for i in 0..3 {
        for j in 0..2 {
            flat_after.push(*data.get([i, j]).unwrap());
        }
    }
    assert_eq!(flat_before, flat_after);
}

// zeros yields every element equal to the type's zero; ones yields every
// element equal to the type's one.
#[test]
fn fill_constructors_fill_every_element() {
    let shape: [usize; 2] = [3, 2];
    let z: NdArray<u16, 2> = Array2::<u16>::zeros(shape);
    let o: NdArray<u16, 2> = Array2::<u16>::ones(shape);
    for i in 0..shape[0] {
        for j in 0..shape[1] {
            assert_eq!(*z.get([i, j]).unwrap(), 0);
            assert_eq!(*o.get([i, j]).unwrap(), 1);
        }
    }
}

// The parity-based progression size estimate, on the worked examples: an
// even span with an even step adds one to the quotient, as does an odd span
// with an odd step; mixed parities keep the bare quotient; a zero step
// counts every integer of the span.
#[test]
fn size_from_range_worked_examples() {
    assert_eq!(NdArray::<i32, 1>::size_from_range((-1, 5), 2), 4);
    assert_eq!(NdArray::<i32, 1>::size_from_range((-1, 6), 3), 3);
    assert_eq!(NdArray::<i32, 1>::size_from_range((-1, 5), 3), 2);
    assert_eq!(NdArray::<i32, 1>::size_from_range((-1, 6), 2), 3);
    assert_eq!(NdArray::<i32, 1>::size_from_range((-1, 5), 0), 6);
}

// Construction from data: the flat source [0, 1, 2, 3, 4, 5] under shape
// [1, 2, 3] reads 5 at multi-index [0, 1, 2], with strides [24, 12, 4] for
// a four-byte element type.
#[test]
fn from_slice_reads_back() {
    let arr: [u32; 6] = [0, 1, 2, 3, 4, 5];
    let data: NdArray<u32, 3> = Array3::<u32>::from(&arr, [1, 2, 3]).unwrap();
    assert_eq!(*data.get([0, 1, 2]).unwrap(), 5);
    assert_eq!(*data.strides(), [24, 12, 4]);
}

// Error scenarios: a source of three elements does not build a 2-by-2
// array; a length-six array does not reshape to [4, 2] and keeps its shape;
// a progression whose start exceeds its end is an invalid range.
#[test]
fn error_scenarios() {
    let arr: [i32; 3] = [1, 2, 3];
    assert_eq!(
        NdArray::<i32, 2>::from(&arr, [2, 2]).unwrap_err(),
        NdError::ShapeMismatch
    );

    let six: [i32; 6] = [1, 2, 3, 4, 5, 6];
    let mut data: NdArray<i32, 2> = Array2::<i32>::from(&six, [2, 3]).unwrap();
    assert_eq!(data.reshape([4, 2]).unwrap_err(), NdError::ShapeMismatch);
    assert_eq!(*data.shape(), [2, 3]);
    assert_eq!(*data.len(), 6);

    assert_eq!(
        NdArray::<i32, 1>::ranges((5, 1)).unwrap_err(),
        NdError::InvalidRange
    );
}

// A progression value that cannot be represented in the element type is a
// conversion failure.
#[test]
fn conversion_failure_scenarios() {
    assert_eq!(
        NdArray::<u8, 1>::ranges((-5, 5)).unwrap_err(),
        NdError::ConversionFailure
    );
    assert_eq!(
        NdArray::<u8, 1>::arange(300).unwrap_err(),
        NdError::ConversionFailure
    );
    assert_eq!(
        NdArray::<i8, 1>::ranges((100, 200)).unwrap_err(),
        NdError::ConversionFailure
    );
}

// Indexing a length-four array at a multi-index that resolves to flat
// offset four or greater fails with IndexOutOfBounds, for reads and writes.
#[test]
fn bounds_checked_on_flat_offset() {
    let mut data: NdArray<u32, 2> = Array2::<u32>::zeros([2, 2]);
    assert_eq!(data.get([1, 2]), Err(NdError::IndexOutOfBounds));
    assert_eq!(data.get([2, 0]), Err(NdError::IndexOutOfBounds));
    assert_eq!(data.set([2, 0], 1), Err(NdError::IndexOutOfBounds));
    // an out-of-range axis index that still resolves in bounds is accepted
    assert_eq!(*data.get([0, 3]).unwrap(), 0);
}

// The flat position a multi-index resolves to: the sum of index/stride
// products divided by the last stride.
#[test]
fn get_index_resolves_flat_position() {
    let strides: [usize; 2] = [8, 4];
    assert_eq!(get_index(&[1, 1], &strides), 3);
    assert_eq!(get_index(&[0, 0], &strides), 0);
    assert_eq!(get_index(&[1, 0], &strides), 2);
    let strides3: [usize; 3] = [24, 12, 4];
    assert_eq!(get_index(&[0, 1, 2], &strides3), 5);
}

// A zero step means no skipping: the progression includes every integer,
// as a step of one does.
#[test]
fn zero_step_means_every_value() {
    let with_zero: NdArray<u16, 1> = Array::<u16>::arange_with_step(5, 0).unwrap();
    assert_eq!(*with_zero.len(), 5);
    for i in 0..5 {
        assert_eq!(*with_zero.get([i]).unwrap(), i as u16);
    }
}

// Stepped and plain progressions, on the documented examples.
#[test]
fn progression_values() {
    let stepped: NdArray<u16, 1> = Array::<u16>::arange_with_step(5, 2).unwrap();
    assert_eq!(*stepped.len(), 3);
    assert_eq!(*stepped.get([0]).unwrap(), 0);
    assert_eq!(*stepped.get([1]).unwrap(), 2);
    assert_eq!(*stepped.get([2]).unwrap(), 4);

    let plain: NdArray<i8, 2> = Array2::<i8>::ranges((-1, 5)).unwrap();
    assert_eq!(*plain.len(), 6);
    assert_eq!(*plain.shape(), [1, 6]);
    for j in 0..6 {
        assert_eq!(*plain.get([0, j]).unwrap(), (j as i8) - 1);
    }

    let both: NdArray<i8, 2> = Array2::<i8>::ranges_with_step((-1, 5), 2).unwrap();
    assert_eq!(*both.len(), 3);
    assert_eq!(*both.get([0, 0]).unwrap(), -1);
    assert_eq!(*both.get([0, 1]).unwrap(), 1);
    assert_eq!(*both.get([0, 2]).unwrap(), 3);
}

// Empty edges: a zero-sized axis makes an empty array, an empty progression
// has no values, and equal bounds are a valid empty range.
#[test]
fn empty_arrays() {
    let z: NdArray<u32, 2> = Array2::<u32>::zeros([0, 5]);
    assert_eq!(*z.len(), 0);
    assert_eq!(*z.shape(), [0, 5]);
    assert_eq!(z.get([0, 0]), Err(NdError::IndexOutOfBounds));

    let empty: [i16; 0] = [];
    let f: NdArray<i16, 2> = Array2::<i16>::from(&empty, [3, 0]).unwrap();
    assert_eq!(*f.len(), 0);

    let a: NdArray<u8, 1> = Array::<u8>::arange(0).unwrap();
    assert_eq!(*a.len(), 0);
    assert_eq!(*a.shape(), [0]);

    let r: NdArray<i32, 1> = Array::<i32>::ranges((3, 3)).unwrap();
    assert_eq!(*r.len(), 0);
}

// An empty array reshapes only to a shape whose product is zero, and then
// becomes laid out.
#[test]
fn reshape_of_empty_array() {
    let mut data: NdArray<u32, 2> = Array2::<u32>::new();
    assert_eq!(data.reshape([1, 1]).unwrap_err(), NdError::ShapeMismatch);
    assert_eq!(*data.shape(), [1, 1]);
    data.reshape([0, 3]).unwrap();
    assert_eq!(*data.shape(), [0, 3]);
    assert_eq!(*data.len(), 0);
}
