use tensor_core::traits::HasTensorCore;
use tensor_core::IndexSpec;
use tensor_core::Tensor;
use tensor_core::TensorError;

#[test]
fn slice_full_keeps_everything() {
    let t = Tensor::new(vec![2, 3], vec![1u64, 2, 3, 4, 5, 6]).unwrap();
    let v = t.slice(&[IndexSpec::All, IndexSpec::All]).unwrap();
    assert_eq!(v.dims(), &[2, 3]);
    assert_eq!(v.strides(), &[3, 1]);
    for i in 0..2 {
        for j in 0..3 {
            assert_eq!(v.get(&[i, j]).unwrap(), t.get(&[i, j]).unwrap());
        }
    }
}

#[test]
fn slice_range_takes_a_sub_window() {
    let t = Tensor::new(vec![2, 3], vec![1u64, 2, 3, 4, 5, 6]).unwrap();
    let v = t
        .slice(&[IndexSpec::All, IndexSpec::Range { start: 1, end: 3 }])
        .unwrap();
    assert_eq!(v.dims(), &[2, 2]);
    assert_eq!(v.strides(), &[3, 1]);
    assert_eq!(v.get(&[0, 0]).unwrap(), &2);
    assert_eq!(v.get(&[0, 1]).unwrap(), &3);
    assert_eq!(v.get(&[1, 0]).unwrap(), &5);
    assert_eq!(v.get(&[1, 1]).unwrap(), &6);
}

#[test]
fn slice_fixed_collapses_the_axis() {
    let t = Tensor::new(vec![2, 3], vec![1u64, 2, 3, 4, 5, 6]).unwrap();
    let v = t.slice(&[IndexSpec::Index(1), IndexSpec::All]).unwrap();
    assert_eq!(v.dims(), &[1, 3]);
    assert_eq!(v.strides(), &[3, 1]);
    assert_eq!(v.get(&[0, 0]).unwrap(), &4);
    assert_eq!(v.get(&[0, 1]).unwrap(), &5);
    assert_eq!(v.get(&[0, 2]).unwrap(), &6);
}

#[test]
fn slice_reports_the_first_violated_axis() {
    let t = Tensor::new(vec![2, 3], vec![1u64, 2, 3, 4, 5, 6]).unwrap();
    match t.slice(&[IndexSpec::Index(5), IndexSpec::Index(9)]) {
        Err(TensorError::OutOfBounds { idx, dims }) => {
            assert_eq!(idx, vec![5]);
            assert_eq!(dims, vec![2, 3]);
        },
        _ => panic!("expected an out-of-bounds error"),
    }
    match t.slice(&[IndexSpec::All, IndexSpec::Range { start: 2, end: 2 }]) {
        Err(TensorError::OutOfBounds { idx, dims }) => {
            assert_eq!(idx, vec![2, 2]);
            assert_eq!(dims, vec![2, 3]);
        },
        _ => panic!("expected an out-of-bounds error"),
    }
}

#[test]
fn slice_with_wrong_rank_fails() {
    let t = Tensor::new(vec![2, 3], vec![1u64, 2, 3, 4, 5, 6]).unwrap();
    match t.slice(&[IndexSpec::All]) {
        Err(TensorError::OutOfBounds { idx, dims }) => {
            assert_eq!(idx, Vec::<usize>::new());
            assert_eq!(dims, vec![2, 3]);
        },
        _ => panic!("expected an out-of-bounds error"),
    }
}

#[test]
fn slice_range_end_past_extent_fails() {
    let t = Tensor::new(vec![2, 3], vec![1u64, 2, 3, 4, 5, 6]).unwrap();
    match t.slice(&[IndexSpec::All, IndexSpec::Range { start: 1, end: 4 }]) {
        Err(TensorError::OutOfBounds { idx, dims }) => {
            assert_eq!(idx, vec![1, 4]);
            assert_eq!(dims, vec![2, 3]);
        },
        _ => panic!("expected an out-of-bounds error"),
    }
}

#[test]
fn slice_mut_writes_reach_the_tensor() {
    let mut t = Tensor::new(vec![2, 3], vec![1u64, 2, 3, 4, 5, 6]).unwrap();
    let w = t
        .slice_mut(&[IndexSpec::All, IndexSpec::Range { start: 1, end: 3 }])
        .unwrap();
    assert_eq!(w.dims.as_slice(), &[2, 2]);
    assert_eq!(w.base, 1);
    w.set(t.data_mut(), &[1, 0], 50).unwrap();
    assert_eq!(t.get(&[1, 1]).unwrap(), &50);
    assert_eq!(w.get(t.data().as_slice(), &[1, 0]).unwrap(), &50);
}

#[test]
fn slicing_a_zero_extent_tensor_yields_an_empty_view() {
    let t = Tensor::new(vec![0, 3], Vec::<u64>::new()).unwrap();
    let v = t.slice(&[IndexSpec::All, IndexSpec::Index(2)]).unwrap();
    assert_eq!(v.dims(), &[0, 1]);
    assert!(matches!(
        v.get(&[0, 0]),
        Err(TensorError::OutOfBounds { .. })
    ));
}

#[test]
fn sliced_view_of_sliced_geometry_reads_right_cells() {
    let t = Tensor::new(
        vec![2, 2, 2],
        vec![1u64, 2, 3, 4, 5, 6, 7, 8],
    )
    .unwrap();
    let v = t
        .slice(&[
            IndexSpec::Index(1),
            IndexSpec::Range { start: 0, end: 2 },
            IndexSpec::Index(0),
        ])
        .unwrap();
    assert_eq!(v.dims(), &[1, 2, 1]);
    assert_eq!(v.get(&[0, 0, 0]).unwrap(), &5);
    assert_eq!(v.get(&[0, 1, 0]).unwrap(), &7);
}
