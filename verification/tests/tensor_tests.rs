use tensor_core::traits::HasTensorCore;
use tensor_core::traits::TensorLike;
use tensor_core::Tensor;
use tensor_core::TensorError;

#[test]
fn construct_and_read_two_by_two() {
    let t = Tensor::new(vec![2, 2], vec![1u64, 2, 3, 4]).unwrap();
    assert_eq!(t.get(&[0, 0]).unwrap(), &1);
    assert_eq!(t.get(&[1, 1]).unwrap(), &4);
    assert_eq!(t.strides(), &[2, 1]);
    assert!(t.is_contiguous());
}

#[test]
fn construct_succeeds_on_matching_length() {
    let t = Tensor::new(vec![2, 3], vec![0u64, 1, 2, 3, 4, 5]).unwrap();
    assert_eq!(t.rank(), 2);
    assert_eq!(t.len(), 6);
    assert!(!t.is_empty());
    assert_eq!(t.dims(), &[2, 3]);
    assert_eq!(t.strides(), &[3, 1]);
}

#[test]
fn construct_fails_on_wrong_length() {
    match Tensor::new(vec![2, 2], vec![1u64, 2, 3]) {
        Err(TensorError::ShapeMismatch { expected, got }) => {
            assert_eq!(expected, 4);
            assert_eq!(got, 3);
        },
        _ => panic!("expected a shape mismatch"),
    }
}

#[test]
fn construct_rejects_unrepresentable_layouts() {
    let huge: usize = 1 << 33;
    assert!(matches!(
        Tensor::new(vec![huge, huge], vec![1u64, 2, 3]),
        Err(TensorError::InvalidLayout)
    ));
    assert!(matches!(
        Tensor::new(vec![0, huge, huge], Vec::<u64>::new()),
        Err(TensorError::InvalidLayout)
    ));
}

#[test]
fn get_after_set_round_trip() {
    let mut t = Tensor::new(vec![2, 3], vec![0u64; 6]).unwrap();
    t.set(&[1, 2], 42).unwrap();
    assert_eq!(t.get(&[1, 2]).unwrap(), &42);
    assert_eq!(t.get(&[1, 1]).unwrap(), &0);
    t.set(&[0, 0], 7).unwrap();
    assert_eq!(t.get(&[0, 0]).unwrap(), &7);
    assert_eq!(t.get(&[1, 2]).unwrap(), &42);
}

#[test]
fn offsets_are_distinct_over_the_valid_index_space() {
    let t = Tensor::new(vec![2, 3, 4], vec![0u8; 24]).unwrap();
    let mut seen = vec![false; 24];
    for i in 0..2 {
        for j in 0..3 {
            for k in 0..4 {
                let off = t.offset(&[i, j, k]).unwrap();
                assert!(off < 24);
                assert!(!seen[off]);
                seen[off] = true;
            }
        }
    }
}

#[test]
fn set_out_of_bounds_changes_nothing() {
    let mut t = Tensor::new(vec![2, 2], vec![1u64, 2, 3, 4]).unwrap();
    assert!(matches!(
        t.set(&[2, 0], 9),
        Err(TensorError::OutOfBounds { .. })
    ));
    assert!(matches!(
        t.set(&[0], 9),
        Err(TensorError::OutOfBounds { .. })
    ));
    assert_eq!(t.clone().into_inner(), vec![1, 2, 3, 4]);
}

#[test]
fn offset_checks_rank_and_coordinates() {
    let t = Tensor::new(vec![2, 2], vec![1u64, 2, 3, 4]).unwrap();
    assert_eq!(t.offset(&[1, 1]).unwrap(), 3);
    assert_eq!(t.offset(&[1, 0]).unwrap(), 2);
    match t.offset(&[1]) {
        Err(TensorError::OutOfBounds { idx, dims }) => {
            assert_eq!(idx, vec![1]);
            assert_eq!(dims, vec![2, 2]);
        },
        _ => panic!("expected a rank error"),
    }
    assert!(matches!(
        t.offset(&[0, 2]),
        Err(TensorError::OutOfBounds { .. })
    ));
}

#[test]
fn defaulted_is_zero_filled_and_contiguous() {
    let t: Tensor<u64> = Tensor::defaulted(vec![2, 2]);
    assert_eq!(t.len(), 4);
    assert!(t.is_contiguous());
    for i in 0..2 {
        for j in 0..2 {
            assert_eq!(t.get(&[i, j]).unwrap(), &0);
        }
    }
}

#[test]
fn into_inner_returns_the_buffer() {
    let t = Tensor::new(vec![3], vec![5u64, 6, 7]).unwrap();
    assert_eq!(t.into_inner(), vec![5, 6, 7]);
}

#[test]
fn zero_extent_tensor_is_empty() {
    let t = Tensor::new(vec![0, 3], Vec::<u64>::new()).unwrap();
    assert!(t.is_empty());
    assert!(t.is_contiguous());
    assert!(matches!(
        t.get(&[0, 0]),
        Err(TensorError::OutOfBounds { .. })
    ));
}

#[test]
fn rank_zero_tensor_holds_one_scalar() {
    let mut t = Tensor::new(vec![], vec![11u64]).unwrap();
    assert_eq!(t.rank(), 0);
    assert_eq!(t.len(), 1);
    assert_eq!(t.get(&[]).unwrap(), &11);
    t.set(&[], 12).unwrap();
    assert_eq!(t.get(&[]).unwrap(), &12);
}

#[test]
fn unchecked_accessors_agree_with_checked_ones() {
    let mut t = Tensor::new(vec![2, 2], vec![1u64, 2, 3, 4]).unwrap();
    assert_eq!(t.get_unchecked(&[1, 0]), &3);
    t.set_unchecked(&[1, 0], 30);
    assert_eq!(t.get(&[1, 0]).unwrap(), &30);
}

#[test]
fn data_accessors_expose_the_buffer() {
    let mut t = Tensor::new(vec![2, 2], vec![1u64, 2, 3, 4]).unwrap();
    assert_eq!(t.data().as_slice(), &[1, 2, 3, 4]);
    t.data_mut()[2] = 33;
    assert_eq!(t.get(&[1, 0]).unwrap(), &33);
}
