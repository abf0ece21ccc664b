use tensor_core::errors::{format_usize, format_usize_list};
use tensor_core::Tensor;
use tensor_core::TensorError;

#[test]
fn error_creation_message() {
    let err = TensorError::msg("custom failure");
    assert_eq!(err.describe(), "Tensor error: custom failure");
}

#[test]
fn shape_mismatch_formatting() {
    let err = TensorError::ShapeMismatch { expected: 4, got: 6 };
    assert_eq!(err.describe(), "Shape mismatch: expected 4 elements, got 6");
}

#[test]
fn out_of_bounds_formatting() {
    let t = Tensor::new(vec![2, 2], vec![1u64, 2, 3, 4]).unwrap();
    let err = t.get(&[0, 5]).unwrap_err();
    assert_eq!(
        err.describe(),
        "Index out of bounds: attempted index [0, 5] in tensor with dims [2, 2]"
    );
}

#[test]
fn fixed_error_messages() {
    assert_eq!(
        TensorError::InvalidLayout.describe(),
        "Invalid or unsupported memory layout/strides"
    );
    assert_eq!(
        TensorError::NonContiguous.describe(),
        "Tensor is not contiguous in memory"
    );
    assert_eq!(
        TensorError::UnsupportedOperation.describe(),
        "Operation not supported for this tensor backend"
    );
    assert_eq!(
        TensorError::InvalidOperation.describe(),
        "Operation not defined for given element type"
    );
}

#[test]
fn decimal_rendering() {
    assert_eq!(format_usize(0), "0");
    assert_eq!(format_usize(7), "7");
    assert_eq!(format_usize(10), "10");
    assert_eq!(format_usize(90321), "90321");
    assert_eq!(format_usize_list(&[]), "[]");
    assert_eq!(format_usize_list(&[5]), "[5]");
    assert_eq!(format_usize_list(&[1, 22, 333]), "[1, 22, 333]");
}
