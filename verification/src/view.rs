//! Non-owning windows over storage owned elsewhere: a read-only view that
//! borrows the buffer, and a read-write view handle whose accessors take
//! the buffer they write through.

use vstd::prelude::*;
use vstd::slice::slice_to_vec;

use crate::errors::TensorError;
use crate::layout::{flat_offset, lemma_offset_in_bounds, valid_index};
use crate::tensor::Tensor;
use crate::traits::{
    addressable, offset_in, read_cell, read_cell_unchecked, HasTensorCore, TensorLike,
};

verus! {

/// Read-only view: a borrowed window of someone else's buffer, addressed
/// through its own extents and strides. Writes through it fail with a
/// typed error rather than aborting.
#[derive(Debug)]
pub struct TensorView<'a, T> {
    pub dims: Vec<usize>,
    pub strides: Vec<usize>,
    pub data: &'a [T],
}

impl<'a, T> HasTensorCore for TensorView<'a, T> {
    open spec fn spec_dims(&self) -> Seq<usize> {
        self.dims@
    }

    open spec fn spec_strides(&self) -> Seq<usize> {
        self.strides@
    }

    fn dims(&self) -> (r: &[usize]) {
        self.dims.as_slice()
    }

    fn strides(&self) -> (r: &[usize]) {
        self.strides.as_slice()
    }
}

impl<'a, T> TensorLike for TensorView<'a, T> {

}

impl<'a, T> TensorView<'a, T> {
    /// Wraps a borrowed buffer in a view with the given geometry. Nothing
    /// is validated here: every read is bounds-checked against the real
    /// buffer, so a shape that outruns it merely makes those reads fail.
    pub fn new(dims: Vec<usize>, strides: Vec<usize>, data: &'a [T]) -> (v: TensorView<'a, T>)
        ensures
            v.dims@ == dims@,
            v.strides@ == strides@,
            v.data@ == data@,
    {
        TensorView { dims, strides, data }
    }

    /// The borrowed buffer window.
    pub fn data(&self) -> (r: &'a [T])
        ensures
            r@ == self.data@,
    {
        self.data
    }

    /// Reads the element `idx` addresses. Succeeds exactly when `idx` is
    /// valid for the view's extents and its slot lies inside the
    /// borrowed window.
    pub fn get(&self, idx: &[usize]) -> (r: Result<&'a T, TensorError>)
        ensures
            match r {
                Ok(v) => addressable(idx@, self.dims@, self.strides@, self.data@.len()) && *v
                    == self.data@[flat_offset(idx@, self.strides@) as int],
                Err(e) => {
                    &&& !addressable(idx@, self.dims@, self.strides@, self.data@.len())
                    &&& e matches TensorError::OutOfBounds { idx: ei, dims: ed } && ei@ == idx@
                        && ed@ == self.dims@
                },
            },
    {
        read_cell(self.data, self.dims.as_slice(), self.strides.as_slice(), idx)
    }

    /// A write through a read-only view is a programming error to be
    /// signaled, not undefined behavior: it always reports an unsupported
    /// operation and touches nothing.
    pub fn set(&mut self, idx: &[usize], val: T) -> (r: Result<(), TensorError>)
        ensures
            *final(self) == *old(self),
            r matches Err(TensorError::UnsupportedOperation),
    {
        Err(TensorError::UnsupportedOperation)
    }

    /// Fast-path read: the caller warrants that `idx` addresses a slot
    /// inside the window, and no check is made.
    pub fn get_unchecked(&self, idx: &[usize]) -> (r: &'a T)
        requires
            idx@.len() == self.strides@.len(),
            flat_offset(idx@, self.strides@) < self.data@.len(),
        ensures
            *r == self.data@[flat_offset(idx@, self.strides@) as int],
    {
        read_cell_unchecked(self.data, self.strides.as_slice(), idx)
    }
}

/// Read-write view handle: extents, strides, and a base offset into a
/// buffer owned elsewhere. Its accessors take that buffer, so writes
/// through the handle and reads through the owner observe the same
/// storage.
#[derive(Debug)]
pub struct TensorViewMut {
    pub dims: Vec<usize>,
    pub strides: Vec<usize>,
    pub base: usize,
}

impl HasTensorCore for TensorViewMut {
    open spec fn spec_dims(&self) -> Seq<usize> {
        self.dims@
    }

    open spec fn spec_strides(&self) -> Seq<usize> {
        self.strides@
    }

    fn dims(&self) -> (r: &[usize]) {
        self.dims.as_slice()
    }

    fn strides(&self) -> (r: &[usize]) {
        self.strides.as_slice()
    }
}

impl TensorLike for TensorViewMut {

}

impl TensorViewMut {
    /// Whether `idx` addresses a real cell of a buffer with `len` slots
    /// through this handle: consistent geometry, a valid index, and a
    /// slot inside the buffer once the base offset is added.
    pub open spec fn spec_addressable(&self, idx: Seq<usize>, len: nat) -> bool {
        &&& self.strides@.len() == self.dims@.len()
        &&& valid_index(idx, self.dims@)
        &&& self.base + flat_offset(idx, self.strides@) < len
    }

    /// Builds a handle with the given geometry and base offset. Nothing
    /// is validated here: every access is bounds-checked against the
    /// buffer it is handed.
    pub fn new(dims: Vec<usize>, strides: Vec<usize>, base: usize) -> (v: TensorViewMut)
        ensures
            v.dims@ == dims@,
            v.strides@ == strides@,
            v.base == base,
    {
        TensorViewMut { dims, strides, base }
    }

    /// Reads the element `idx` addresses in `data`. Succeeds exactly when
    /// the handle can address `idx` inside that buffer.
    pub fn get<'a, T>(&self, data: &'a [T], idx: &[usize]) -> (r: Result<&'a T, TensorError>)
        ensures
            match r {
                Ok(v) => self.spec_addressable(idx@, data@.len()) && *v == data@[(self.base
                    + flat_offset(idx@, self.strides@)) as int],
                Err(e) => {
                    &&& !self.spec_addressable(idx@, data@.len())
                    &&& e matches TensorError::OutOfBounds { idx: ei, dims: ed } && ei@ == idx@
                        && ed@ == self.dims@
                },
            },
    {
        let dlen = data.len();
        match offset_in(self.dims.as_slice(), self.strides.as_slice(), idx) {
            Ok(off) => match self.base.checked_add(off) {
                Some(g) => {
                    if g < dlen {
                        Ok(&data[g])
                    } else {
                        Err(TensorError::out_of_bounds(idx, self.dims.as_slice()))
                    }
                },
                None => Err(TensorError::out_of_bounds(idx, self.dims.as_slice())),
            },
            Err(e) => Err(e),
        }
    }

    /// Writes `val` into the cell `idx` addresses in `data`, or reports
    /// the addressing error and leaves the buffer untouched. Succeeds
    /// exactly where `get` does.
    pub fn set<T>(&self, data: &mut Vec<T>, idx: &[usize], val: T) -> (r: Result<(), TensorError>)
        ensures
            match r {
                Ok(_) => {
                    &&& self.spec_addressable(idx@, old(data)@.len())
                    &&& final(data)@ == old(data)@.update(
                        (self.base + flat_offset(idx@, self.strides@)) as int,
                        val,
                    )
                },
                Err(e) => {
                    &&& final(data)@ == old(data)@
                    &&& !self.spec_addressable(idx@, old(data)@.len())
                    &&& e matches TensorError::OutOfBounds { idx: ei, dims: ed } && ei@ == idx@
                        && ed@ == self.dims@
                },
            },
    {
        let dlen = data.len();
        match offset_in(self.dims.as_slice(), self.strides.as_slice(), idx) {
            Ok(off) => match self.base.checked_add(off) {
                Some(g) => {
                    if g < dlen {
                        data[g] = val;
                        Ok(())
                    } else {
                        Err(TensorError::out_of_bounds(idx, self.dims.as_slice()))
                    }
                },
                None => Err(TensorError::out_of_bounds(idx, self.dims.as_slice())),
            },
            Err(e) => Err(e),
        }
    }
}

impl<T> Tensor<T> {
    /// A read-only view of the whole tensor: geometry copied verbatim,
    /// windowed over the whole buffer.
    pub fn view(&self) -> (v: TensorView<'_, T>)
        ensures
            v.dims@ == self.dims@,
            v.strides@ == self.strides@,
            v.data@ == self.data@,
    {
        TensorView::new(
            slice_to_vec(self.dims.as_slice()),
            slice_to_vec(self.strides.as_slice()),
            self.data.as_slice(),
        )
    }

    /// A read-write view handle over the whole tensor: geometry copied
    /// verbatim, base offset zero. Writes go through the buffer that
    /// `data_mut` exposes, so they are visible through the tensor itself.
    pub fn view_mut(&self) -> (v: TensorViewMut)
        ensures
            v.dims@ == self.dims@,
            v.strides@ == self.strides@,
            v.base == 0,
    {
        TensorViewMut::new(
            slice_to_vec(self.dims.as_slice()),
            slice_to_vec(self.strides.as_slice()),
            0,
        )
    }
}

/// Writes through a whole-tensor mutable view land at the slot the
/// tensor's own addressing gives: after the view writes `val` at `idx`,
/// both the view and the originating tensor read `val` back there.
pub proof fn lemma_view_write_visible<T>(
    t: Tensor<T>,
    v: TensorViewMut,
    idx: Seq<usize>,
    val: T,
    written: Seq<T>,
)
    requires
        t.wf(),
        v.dims@ == t.dims@,
        v.strides@ == t.strides@,
        v.base == 0,
        valid_index(idx, t.dims@),
        written == t.data@.update((v.base + flat_offset(idx, v.strides@)) as int, val),
    ensures
        v.spec_addressable(idx, t.data@.len()),
        written[(v.base + flat_offset(idx, v.strides@)) as int] == val,
        addressable(idx, t.dims@, t.strides@, written.len()),
        written[flat_offset(idx, t.strides@) as int] == val,
{
    lemma_offset_in_bounds(idx, t.dims@, t.strides@);
}

} // verus!
