use tensor_core::traits::TensorLike;
use tensor_core::Tensor;
use tensor_core::TensorError;
use tensor_core::TensorView;
use tensor_core::TensorViewMut;

#[test]
fn whole_view_reads_the_tensor() {
    let t = Tensor::new(vec![2, 2], vec![1u64, 2, 3, 4]).unwrap();
    let v = t.view();
    assert_eq!(v.get(&[0, 1]).unwrap(), &2);
    assert_eq!(v.get(&[1, 0]).unwrap(), &3);
    assert!(v.is_contiguous());
    assert_eq!(v.rank(), 2);
    assert_eq!(v.len(), 4);
}

#[test]
fn view_write_fails_with_typed_error() {
    let t = Tensor::new(vec![2], vec![1u64, 2]).unwrap();
    let mut v = t.view();
    assert!(matches!(
        v.set(&[0], 9),
        Err(TensorError::UnsupportedOperation)
    ));
    assert_eq!(v.get(&[0]).unwrap(), &1);
}

#[test]
fn view_with_altered_strides_is_not_contiguous() {
    let buf = vec![1u64, 2, 3, 4, 5, 6];
    let v = TensorView::new(vec![2, 2], vec![3, 1], &buf);
    assert!(!v.is_contiguous());
    let w = TensorView::new(vec![2, 3], vec![3, 1], &buf);
    assert!(w.is_contiguous());
}

#[test]
fn view_shape_outrunning_buffer_fails_reads() {
    let buf = vec![1u64, 2, 3];
    let v = TensorView::new(vec![2, 2], vec![2, 1], &buf);
    assert_eq!(v.get(&[0, 1]).unwrap(), &2);
    assert!(matches!(
        v.get(&[1, 1]),
        Err(TensorError::OutOfBounds { .. })
    ));
}

#[test]
fn mutable_view_writes_are_visible_through_the_tensor() {
    let mut t = Tensor::new(vec![2, 2], vec![1u64, 2, 3, 4]).unwrap();
    let mv = t.view_mut();
    mv.set(t.data_mut(), &[0, 1], 20).unwrap();
    mv.set(t.data_mut(), &[1, 0], 30).unwrap();
    assert_eq!(mv.get(t.data().as_slice(), &[0, 1]).unwrap(), &20);
    assert_eq!(t.get(&[0, 1]).unwrap(), &20);
    assert_eq!(t.get(&[1, 0]).unwrap(), &30);
    assert_eq!(t.get(&[0, 0]).unwrap(), &1);
}

#[test]
fn mutable_view_rejects_bad_writes_untouched() {
    let mut t = Tensor::new(vec![2, 2], vec![1u64, 2, 3, 4]).unwrap();
    let mv = t.view_mut();
    assert!(matches!(
        mv.set(t.data_mut(), &[0, 2], 9),
        Err(TensorError::OutOfBounds { .. })
    ));
    assert_eq!(t.clone().into_inner(), vec![1, 2, 3, 4]);
}

#[test]
fn mutable_view_with_base_past_buffer_fails() {
    let mut buf = vec![1u64, 2, 3];
    let mv = TensorViewMut::new(vec![1], vec![1], 10);
    assert!(matches!(
        mv.get(buf.as_slice(), &[0]),
        Err(TensorError::OutOfBounds { .. })
    ));
    assert!(matches!(
        mv.set(&mut buf, &[0], 9),
        Err(TensorError::OutOfBounds { .. })
    ));
    assert_eq!(buf, vec![1, 2, 3]);
}
