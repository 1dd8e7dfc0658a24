use ndim::Array;
use ndim::Array2;
use ndim::Array3;
use ndim::NdArray;

// Test for zeros creation in a 2-D sized array.
// Access the value in the memory at location (x, y) and mutate it.
#[test]
fn zeros_2dim_t() {
    let shape: [usize; 2] = [2, 2];
    let mut data: NdArray<u32, 2> = Array2::<u32>::zeros(shape);
    assert_eq!(*data.get([1, 1]).unwrap(), 0);

    data.set([1, 1], 12).unwrap();
    assert_eq!(*data.get([1, 1]).unwrap(), 12);
}

// Test for ones creation in a 2-D sized array.
// Access the value in the memory at location (x, y) and mutate it.
#[test]
fn ones_2dim_t() {
    let shape: [usize; 2] = [2, 2];
    let mut data: NdArray<u32, 2> = Array2::<u32>::ones(shape);
    assert_eq!(*data.get([1, 1]).unwrap(), 1);

    data.set([1, 1], 12).unwrap();
    assert_eq!(*data.get([1, 1]).unwrap(), 12);
}

// Test building a 3-D array of type u32 from a flat slice.
// Check the strides and the value every multi-index resolves to.
#[test]
fn from_3dim_u32_t() {
    let arr: [u32; 6] = [0, 1, 2, 3, 4, 5];
    let ndim_arr: [[[i32; 3]; 2]; 1] = [[[0, 1, 2], [3, 4, 5]]];
    let shape: [usize; 3] = [1, 2, 3];

    let data: NdArray<u32, 3> = Array3::<u32>::from(&arr, shape).unwrap();
    let strides: [usize; 3] = [24, 12, 4];
    assert_eq!(*data.strides(), strides);

    let mut idx: usize = 0;
    for i in 0..ndim_arr.len() {
        for j in 0..ndim_arr[i].len() {
            for k in 0..ndim_arr[i][j].len() {
                let index: [usize; 3] = [i, j, k] as [usize; 3];
                assert_eq!(*data.get(index).unwrap(), arr[idx]);
                idx += 1;
            }
        }
    }
}

// Test building a 2-D array of type i32 from a flat slice.
// Check the strides and the value every multi-index resolves to.
#[test]
fn from_3dim_i32_t() {
    let arr: [i32; 6] = [0, -1, 2, -3, 4, -5];
    let ndim_arr: [[i32; 2]; 3] = [[0, -1], [2, -3], [4, -5]];
    let shape: [usize; 2] = [3, 2];

    let data: NdArray<i32, 2> = Array2::<i32>::from(&arr, shape).unwrap();
    let strides: [usize; 2] = [8, 4];
    assert_eq!(*data.strides(), strides);

    let mut idx: usize = 0;
    for i in 0..ndim_arr.len() {
        for j in 0..ndim_arr[i].len() {
            let index: [usize; 2] = [i, j] as [usize; 2];
            assert_eq!(*data.get(index).unwrap(), arr[idx]);
            idx += 1;
        }
    }
}

// Test arange for a 1-D sized array.
// Check the length, the shape, and every value.
#[test]
fn arange_1dim_t() {
    let range: usize = u16::MAX as usize;
    let arr: Vec<u16> = (0..u16::MAX).collect::<Vec<u16>>();
    let size: &usize = &range;

    let data: NdArray<u16, 1> = Array::<u16>::arange(range).unwrap();
    assert_eq!(*data.len(), *size);
    assert_eq!(*data.shape(), [*size]);

    for i in 0..data.shape()[0] {
        let index: [usize; 1] = [i] as [usize; 1];
        assert_eq!(*data.get(index).unwrap(), arr[i]);
    }
}

// Test arange for a 2-D sized array.
// Check the length, the shape, and every value.
#[test]
fn arange_2dim_t() {
    let range: usize = u16::MAX as usize;
    let arr: Vec<u16> = (0..u16::MAX).collect::<Vec<u16>>();
    let size: &usize = &range;

    let data: NdArray<u16, 2> = Array2::<u16>::arange(range).unwrap();
    assert_eq!(*data.len(), *size);
    assert_eq!(*data.shape(), [1, *size]);

    let mut idx: usize = 0;
    for i in 0..data.shape()[0] {
        for j in 0..data.shape()[1] {
            let index: [usize; 2] = [i, j] as [usize; 2];
            assert_eq!(*data.get(index).unwrap(), arr[idx]);

            idx += 1;
        }
    }
}

// Test reshape for a 2-D sized array.
#[test]
fn reshape_2dim_t() {
    let range: usize = u16::MAX as usize;
    let size: &usize = &range;

    let mut data: NdArray<u16, 2> = Array2::<u16>::arange(range).unwrap();
    assert_eq!(*data.len(), *size);
    assert_eq!(*data.shape(), [1, *size]);

    let mut new_shape: [usize; 2] = [*size / 5, 5];
    data.reshape(new_shape).unwrap();
    assert_eq!(*data.shape(), new_shape);

    new_shape = [*size / 15, 15];
    data.reshape(new_shape).unwrap();
    assert_eq!(*data.shape(), new_shape);

    new_shape = [*size / 257, 257];
    data.reshape(new_shape).unwrap();
    assert_eq!(*data.shape(), new_shape);
}

// Test reshape for a 3-D sized array, with the strides it must produce.
#[test]
fn reshape_3dim_t() {
    let range: usize = u16::MAX as usize;
    let size: &usize = &range;

    let mut data: NdArray<u16, 3> = Array3::<u16>::arange(range).unwrap();
    assert_eq!(*data.len(), *size);
    assert_eq!(*data.shape(), [1, 1, *size]);

    let t_size: usize = 2;
    let mut new_shape: [usize; 3] = [3, 5, 4369];
    let mut new_strides: [usize; 3] = [
        new_shape[1] * new_shape[2] * t_size,
        new_shape[2] * t_size,
        t_size,
    ];
    data.reshape(new_shape).unwrap();
    assert_eq!(*data.shape(), new_shape);
    assert_eq!(*data.strides(), new_strides);

    new_shape = [1, 17, 3855];
    new_strides = [
        new_shape[1] * new_shape[2] * t_size,
        new_shape[2] * t_size,
        t_size,
    ];
    data.reshape(new_shape).unwrap();
    assert_eq!(*data.shape(), new_shape);
    assert_eq!(*data.strides(), new_strides);
}
