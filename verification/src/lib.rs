//! A minimal dense N-dimensional tensor library: owned storage with
//! row-major strides, read-only and read-write views over that storage,
//! and per-axis slicing, all with bounds-checked addressing.

pub mod algebra;
pub mod display;
pub mod errors;
pub mod layout;
pub mod slice;
pub mod tensor;
pub mod traits;
pub mod view;

pub use display::{display_tensor, format_tensor, TensorDisplay};
pub use errors::TensorError;
pub use slice::IndexSpec;
pub use tensor::Tensor;
pub use view::{TensorView, TensorViewMut};
pub use layout::{product, flat_offset, valid_index, is_row_major};
pub use traits::{HasTensorCore, TensorLike};
