use tensor_core::display_tensor;
use tensor_core::format_tensor;

#[test]
fn format_lays_out_nested_blocks() {
    let cells: Vec<String> = (1..=6).map(|n: i32| n.to_string()).collect();
    assert_eq!(format_tensor(&[2, 3], &cells), "[[1 2 3] [4 5 6]]");
    assert_eq!(format_tensor(&[6], &cells), "[1 2 3 4 5 6]");
    assert_eq!(format_tensor(&[3, 2, 1], &cells), "[[[1] [2]] [[3] [4]] [[5] [6]]]");
}

#[test]
fn format_scalar_and_empty_shapes() {
    let one = vec![String::from("7")];
    assert_eq!(format_tensor(&[], &one), "7");
    assert_eq!(format_tensor(&[1, 1], &one), "[[7]]");
    let none: Vec<String> = Vec::new();
    assert_eq!(format_tensor(&[0], &none), "[]");
}

#[test]
fn display_carrier_holds_the_rendering() {
    let cells = vec![String::from("9"), String::from("8")];
    let d = display_tensor(&[2], &cells);
    assert_eq!(d.text, "[9 8]");
}
