//! The owned tensor: it allocates and owns its element buffer and derives
//! row-major strides at construction.

use vstd::prelude::*;

use crate::errors::TensorError;
use crate::layout::{
    checked_product, flat_offset, is_row_major, lemma_offset_in_bounds, lemma_product_skip_step,
    product, strides_fit, valid_index,
};
use crate::traits::{
    addressable, read_cell, read_cell_unchecked, write_cell, write_cell_unchecked, HasTensorCore,
    TensorLike,
};

verus! {

/// Dense, owned tensor: per-axis extents, row-major strides derived at
/// construction, and the owned flat buffer, one element per cell.
#[derive(Clone, Debug)]
pub struct Tensor<T> {
    pub dims: Vec<usize>,
    pub strides: Vec<usize>,
    pub data: Vec<T>,
}

impl<T> HasTensorCore for Tensor<T> {
    open spec fn spec_dims(&self) -> Seq<usize> {
        self.dims@
    }

    open spec fn spec_strides(&self) -> Seq<usize> {
        self.strides@
    }

    fn dims(&self) -> (r: &[usize]) {
        self.dims.as_slice()
    }

    fn strides(&self) -> (r: &[usize]) {
        self.strides.as_slice()
    }
}

impl<T> TensorLike for Tensor<T> {

}

impl<T> Tensor<T> {
    /// The tensor invariant: the strides follow the row-major formula and
    /// the buffer holds exactly one element per addressable cell. Every
    /// constructor establishes it and no operation breaks it.
    pub open spec fn wf(&self) -> bool {
        &&& is_row_major(self.dims@, self.strides@)
        &&& self.data@.len() == product(self.dims@)
    }

    /// Builds a tensor over `data` with the extents `dims`, deriving the
    /// row-major strides. Succeeds exactly when the buffer length equals
    /// the shape's element count and every row-major stride fits a machine
    /// word; a length disagreement reports both numbers, and a shape whose
    /// strides cannot be represented reports an unsupported layout. No
    /// half-built tensor is ever observable.
    pub fn new(dims: Vec<usize>, data: Vec<T>) -> (r: Result<Tensor<T>, TensorError>)
        ensures
            match r {
                Ok(t) => {
                    &&& data@.len() == product(dims@)
                    &&& strides_fit(dims@)
                    &&& t.wf()
                    &&& t.dims@ == dims@
                    &&& t.data@ == data@
                },
                Err(e) => match e {
                    TensorError::ShapeMismatch { expected, got } => {
                        &&& product(dims@) <= usize::MAX as nat
                        &&& product(dims@) != data@.len()
                        &&& expected as nat == product(dims@)
                        &&& got == data@.len()
                    },
                    TensorError::InvalidLayout => {
                        &&& !strides_fit(dims@)
                        &&& (product(dims@) > usize::MAX as nat || product(dims@) == data@.len())
                    },
                    _ => false,
                },
            },
    {
        proof {
            assert(dims@.skip(0) =~= dims@);
        }
        let expected = match checked_product(dims.as_slice()) {
            Some(p) => p,
            None => {
                return Err(TensorError::InvalidLayout);
            },
        };
        let got = data.len();
        if got != expected {
            return Err(TensorError::ShapeMismatch { expected, got });
        }
        let n = dims.len();
        let mut strides: Vec<usize> = Vec::new();
        let mut z: usize = 0;
        while z < n
            invariant
                0 <= z <= n,
                strides@.len() == z,
            decreases n - z,
        {
            strides.push(0);
            z += 1;
        }
        let mut acc: usize = 1;
        let mut i: usize = n;
        proof {
            assert(dims@.skip(n as int) =~= Seq::<usize>::empty());
        }
        while i > 0
            invariant
                0 <= i <= n,
                n == dims@.len(),
                strides@.len() == n,
                expected as nat == product(dims@),
                got == expected,
                got == data@.len(),
                i > 0 ==> acc as nat == product(dims@.skip(i as int)),
                forall|j: int|
                    #![trigger strides@[j]]
                    i <= j < n ==> strides@[j] as nat == product(dims@.skip(j + 1)),
            decreases i,
        {
            i -= 1;
            strides[i] = acc;
            if i > 0 {
                proof {
                    lemma_product_skip_step(dims@, i as int);
                }
                match acc.checked_mul(dims[i]) {
                    Some(next) => {
                        proof {
                            assert(next as nat == product(dims@.skip(i as int)))
                                by (nonlinear_arith)
                                requires
                                    next as nat == acc as nat * dims@[i as int] as nat,
                                    acc as nat == product(dims@.skip(i as int + 1)),
                                    product(dims@.skip(i as int)) == dims@[i as int] as nat
                                        * product(dims@.skip(i as int + 1)),
                            ;
                        }
                        acc = next;
                    },
                    None => {
                        proof {
                            assert(product(dims@.skip(i as int)) > usize::MAX as nat)
                                by (nonlinear_arith)
                                requires
                                    acc as nat * dims@[i as int] as nat > usize::MAX as nat,
                                    acc as nat == product(dims@.skip(i as int + 1)),
                                    product(dims@.skip(i as int)) == dims@[i as int] as nat
                                        * product(dims@.skip(i as int + 1)),
                            ;
                        }
                        return Err(TensorError::InvalidLayout);
                    },
                }
            }
        }
        proof {
            assert forall|k: int| 0 <= k <= dims@.len() implies product(#[trigger] dims@.skip(k))
                <= usize::MAX as nat by {
                if k == dims@.len() {
                    assert(dims@.skip(k) =~= Seq::<usize>::empty());
                } else if k > 0 {
                    assert(strides@[k - 1] as nat == product(dims@.skip(k)));
                }
            }
        }
        Ok(Tensor { dims, strides, data })
    }

    /// Builds a tensor of shape `dims` whose cells all hold the element
    /// type's default value. The shape's row-major strides must be
    /// representable, which every shape with a buffer that fits in memory
    /// satisfies.
    pub fn defaulted(dims: Vec<usize>) -> (t: Tensor<T>) where T: Default
        requires
            strides_fit(dims@),
        ensures
            t.wf(),
            t.dims@ == dims@,
            t.data@.len() == product(dims@),
    {
        proof {
            assert(dims@.skip(0) =~= dims@);
        }
        let total = match checked_product(dims.as_slice()) {
            Some(p) => p,
            None => {
                assert(false);
                0
            },
        };
        let mut data: Vec<T> = Vec::new();
        while data.len() < total
            invariant
                data@.len() <= total,
            decreases total - data@.len(),
        {
            data.push(T::default());
        }
        match Tensor::new(dims, data) {
            Ok(t) => t,
            Err(_) => {
                assert(false);
                vstd::pervasive::unreached()
            },
        }
    }

    /// Relinquishes the backing buffer to the caller, consuming the
    /// tensor.
    pub fn into_inner(self) -> (r: Vec<T>)
        ensures
            r@ == self.data@,
    {
        self.data
    }

    /// The flat backing buffer.
    pub fn data(&self) -> (r: &Vec<T>)
        ensures
            r@ == self.data@,
    {
        &self.data
    }

    /// Mutable access to the flat backing buffer; the geometry is left
    /// untouched.
    pub fn data_mut(&mut self) -> (r: &mut Vec<T>)
        ensures
            *r == old(self).data,
            final(self).data == *final(r),
            final(self).dims@ == old(self).dims@,
            final(self).strides@ == old(self).strides@,
    {
        &mut self.data
    }

    /// Reads the element `idx` addresses. Succeeds exactly when `idx` is
    /// a valid index whose slot lies inside the real buffer, which for a
    /// constructed tensor is every valid index.
    pub fn get(&self, idx: &[usize]) -> (r: Result<&T, TensorError>)
        ensures
            match r {
                Ok(v) => addressable(idx@, self.dims@, self.strides@, self.data@.len()) && *v
                    == self.data@[flat_offset(idx@, self.strides@) as int],
                Err(e) => {
                    &&& !addressable(idx@, self.dims@, self.strides@, self.data@.len())
                    &&& e matches TensorError::OutOfBounds { idx: ei, dims: ed } && ei@ == idx@
                        && ed@ == self.dims@
                },
            },
    {
        read_cell(self.data.as_slice(), self.dims.as_slice(), self.strides.as_slice(), idx)
    }

    /// Writes `val` into the cell `idx` addresses, or reports the
    /// addressing error and leaves the tensor untouched. Succeeds exactly
    /// where `get` does.
    pub fn set(&mut self, idx: &[usize], val: T) -> (r: Result<(), TensorError>)
        ensures
            final(self).dims@ == old(self).dims@,
            final(self).strides@ == old(self).strides@,
            old(self).wf() ==> final(self).wf(),
            match r {
                Ok(_) => {
                    &&& addressable(idx@, old(self).dims@, old(self).strides@, old(self).data@.len())
                    &&& final(self).data@ == old(self).data@.update(
                        flat_offset(idx@, old(self).strides@) as int,
                        val,
                    )
                },
                Err(e) => {
                    &&& final(self).data@ == old(self).data@
                    &&& !addressable(idx@, old(self).dims@, old(self).strides@, old(self).data@.len())
                    &&& e matches TensorError::OutOfBounds { idx: ei, dims: ed } && ei@ == idx@
                        && ed@ == old(self).dims@
                },
            },
    {
        write_cell(&mut self.data, self.dims.as_slice(), self.strides.as_slice(), idx, val)
    }

    /// Fast-path read: the caller warrants the tensor well-formed and the
    /// index valid, and no check is made.
    pub fn get_unchecked(&self, idx: &[usize]) -> (r: &T)
        requires
            self.wf(),
            valid_index(idx@, self.dims@),
        ensures
            *r == self.data@[flat_offset(idx@, self.strides@) as int],
    {
        proof {
            lemma_offset_in_bounds(idx@, self.dims@, self.strides@);
        }
        read_cell_unchecked(self.data.as_slice(), self.strides.as_slice(), idx)
    }

    /// Fast-path write: the caller warrants the tensor well-formed and the
    /// index valid, and no check is made.
    pub fn set_unchecked(&mut self, idx: &[usize], val: T)
        requires
            old(self).wf(),
            valid_index(idx@, old(self).dims@),
        ensures
            final(self).wf(),
            final(self).dims@ == old(self).dims@,
            final(self).strides@ == old(self).strides@,
            final(self).data@ == old(self).data@.update(
                flat_offset(idx@, old(self).strides@) as int,
                val,
            ),
    {
        proof {
            lemma_offset_in_bounds(idx@, old(self).dims@, old(self).strides@);
        }
        write_cell_unchecked(&mut self.data, self.strides.as_slice(), idx, val)
    }
}

/// Reading an index right after writing it returns the written value, and
/// the write disturbs no other valid index: distinct valid indices of a
/// well-formed tensor never share a buffer slot.
pub proof fn lemma_get_after_set<T>(t: Tensor<T>, idx: Seq<usize>, val: T, other: Seq<usize>)
    requires
        t.wf(),
        valid_index(idx, t.dims@),
        valid_index(other, t.dims@),
    ensures
        t.data@.update(flat_offset(idx, t.strides@) as int, val)[flat_offset(
            idx,
            t.strides@,
        ) as int] == val,
        other != idx ==> t.data@.update(flat_offset(idx, t.strides@) as int, val)[flat_offset(
            other,
            t.strides@,
        ) as int] == t.data@[flat_offset(other, t.strides@) as int],
{
    lemma_offset_in_bounds(idx, t.dims@, t.strides@);
    lemma_offset_in_bounds(other, t.dims@, t.strides@);
    if other != idx {
        if flat_offset(other, t.strides@) == flat_offset(idx, t.strides@) {
            crate::layout::lemma_offset_injective(other, idx, t.dims@, t.strides@);
        }
    }
}

/// A well-formed tensor addresses exactly its valid indices: `get` and
/// `set` succeed on an index vector if and only if it is valid for the
/// tensor's extents.
pub proof fn lemma_wf_addressable<T>(t: Tensor<T>, idx: Seq<usize>)
    requires
        t.wf(),
    ensures
        addressable(idx, t.dims@, t.strides@, t.data@.len()) <==> valid_index(idx, t.dims@),
{
    if valid_index(idx, t.dims@) {
        lemma_offset_in_bounds(idx, t.dims@, t.strides@);
    }
}

} // verus!
