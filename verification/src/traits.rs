//! The capability interface and the behavior derived from it, written
//! once for every storage-backed kind: rank, element count, contiguity,
//! offset translation, and the shared bounds-checked cell access.

use vstd::prelude::*;

use crate::errors::TensorError;
use crate::layout::{
    checked_offset, checked_product, flat_offset, is_row_major, lemma_product_skip_step,
    lemma_product_zero, product, valid_index,
};

verus! {

/// Low-level access to a tensor's geometry. Anything that exposes its
/// extents and strides is lifted to `TensorLike` without further work.
pub trait HasTensorCore: Sized {
    /// The per-axis extents, as a mathematical sequence.
    spec fn spec_dims(&self) -> Seq<usize>;

    /// The per-axis strides, as a mathematical sequence.
    spec fn spec_strides(&self) -> Seq<usize>;

    /// The per-axis extents.
    fn dims(&self) -> (r: &[usize])
        ensures
            r@ == self.spec_dims(),
    ;

    /// The per-axis strides.
    fn strides(&self) -> (r: &[usize])
        ensures
            r@ == self.spec_strides(),
    ;
}

/// High-level tensor behavior, derived once from `HasTensorCore`.
pub trait TensorLike: HasTensorCore {
    /// Number of axes.
    fn rank(&self) -> (r: usize)
        ensures
            r == self.spec_dims().len(),
    {
        self.dims().len()
    }

    /// Number of addressable cells: the product of all extents.
    fn len(&self) -> (r: usize)
        requires
            product(self.spec_dims()) <= usize::MAX as nat,
        ensures
            r as nat == product(self.spec_dims()),
    {
        match checked_product(self.dims()) {
            Some(p) => p,
            None => {
                assert(false);
                0
            },
        }
    }

    /// Whether no cell is addressable, that is, some extent is zero.
    fn is_empty(&self) -> (r: bool)
        ensures
            r == (product(self.spec_dims()) == 0),
    {
        let dims = self.dims();
        let n = dims.len();
        let mut i: usize = 0;
        while i < n
            invariant
                0 <= i <= n,
                n == dims@.len(),
                dims@ == self.spec_dims(),
                forall|j: int| #![trigger dims@[j]] 0 <= j < i ==> dims@[j] != 0,
            decreases n - i,
        {
            if dims[i] == 0 {
                proof {
                    lemma_product_zero(self.spec_dims());
                }
                return true;
            }
            i += 1;
        }
        proof {
            lemma_product_zero(self.spec_dims());
        }
        false
    }

    /// Translates an index vector into a flat buffer offset. Fails, and
    /// never returns a silently wrong slot, when the vector's rank is
    /// wrong, a coordinate is at or past its extent, or the weighted sum
    /// does not fit a machine word.
    fn offset(&self, idx: &[usize]) -> (r: Result<usize, TensorError>)
        ensures
            match r {
                Ok(o) => self.spec_strides().len() == self.spec_dims().len() && valid_index(
                    idx@,
                    self.spec_dims(),
                ) && o as nat == flat_offset(idx@, self.spec_strides()),
                Err(e) => {
                    &&& !(self.spec_strides().len() == self.spec_dims().len() && valid_index(
                        idx@,
                        self.spec_dims(),
                    ) && flat_offset(idx@, self.spec_strides()) <= usize::MAX as nat)
                    &&& e matches TensorError::OutOfBounds { idx: ei, dims: ed } && ei@ == idx@
                        && ed@ == self.spec_dims()
                },
            },
    {
        offset_in(self.dims(), self.strides(), idx)
    }

    /// Whether the strides match the row-major formula exactly: the
    /// innermost axis moves by one slot and each axis by the product of
    /// the extents inside it, with no padding.
    fn is_contiguous(&self) -> (r: bool)
        ensures
            r == is_row_major(self.spec_dims(), self.spec_strides()),
    {
        let dims = self.dims();
        let strides = self.strides();
        let n = dims.len();
        if strides.len() != n {
            return false;
        }
        let mut expected: usize = 1;
        let mut i: usize = n;
        proof {
            assert(dims@.skip(n as int) =~= Seq::<usize>::empty());
        }
        while i > 0
            invariant
                0 <= i <= n,
                n == dims@.len(),
                strides@.len() == n,
                dims@ == self.spec_dims(),
                strides@ == self.spec_strides(),
                i > 0 ==> expected as nat == product(dims@.skip(i as int)),
                forall|j: int|
                    #![trigger strides@[j]]
                    i <= j < n ==> strides@[j] as nat == product(dims@.skip(j + 1)),
            decreases i,
        {
            i -= 1;
            if strides[i] != expected {
                return false;
            }
            if i > 0 {
                proof {
                    lemma_product_skip_step(dims@, i as int);
                }
                match expected.checked_mul(dims[i]) {
                    Some(next) => {
                        proof {
                            assert(next as nat == dims@[i as int] as nat * product(
                                dims@.skip(i as int + 1),
                            )) by (nonlinear_arith)
                                requires
                                    next as nat == expected as nat * dims@[i as int] as nat,
                                    expected as nat == product(dims@.skip(i as int + 1)),
                            ;
                        }
                        expected = next;
                    },
                    None => {
                        proof {
                            assert(product(dims@.skip(i as int)) > usize::MAX as nat)
                                by (nonlinear_arith)
                                requires
                                    expected as nat * dims@[i as int] as nat > usize::MAX as nat,
                                    expected as nat == product(dims@.skip(i as int + 1)),
                                    product(dims@.skip(i as int)) == dims@[i as int] as nat
                                        * product(dims@.skip(i as int + 1)),
                            ;
                            assert(strides@[i - 1] as nat <= usize::MAX as nat);
                        }
                        return false;
                    },
                }
            }
        }
        true
    }
}

/// Whether `idx` addresses a real cell: the geometry is consistent, the
/// index is valid for the extents, and the addressed slot lies inside a
/// buffer of `len` cells.
pub open spec fn addressable(idx: Seq<usize>, dims: Seq<usize>, strides: Seq<usize>, len: nat) -> bool {
    &&& strides.len() == dims.len()
    &&& valid_index(idx, dims)
    &&& flat_offset(idx, strides) < len
}

/// The offset-translation algorithm all kinds share: validate the rank
/// and the geometry, validate every coordinate, then form the
/// stride-weighted sum.
pub(crate) fn offset_in(dims: &[usize], strides: &[usize], idx: &[usize]) -> (r: Result<
    usize,
    TensorError,
>)
    ensures
        match r {
            Ok(o) => strides@.len() == dims@.len() && valid_index(idx@, dims@) && o as nat
                == flat_offset(idx@, strides@),
            Err(e) => {
                &&& !(strides@.len() == dims@.len() && valid_index(idx@, dims@) && flat_offset(
                    idx@,
                    strides@,
                ) <= usize::MAX as nat)
                &&& e matches TensorError::OutOfBounds { idx: ei, dims: ed } && ei@ == idx@ && ed@
                    == dims@
            },
        },
{
    let n = dims.len();
    if idx.len() != n || strides.len() != n {
        return Err(TensorError::out_of_bounds(idx, dims));
    }
    let mut i: usize = 0;
    while i < n
        invariant
            0 <= i <= n,
            n == dims@.len(),
            idx@.len() == n,
            forall|j: int|
                #![trigger idx@[j]]
                #![trigger dims@[j]]
                0 <= j < i ==> idx@[j] < dims@[j],
        decreases n - i,
    {
        if idx[i] >= dims[i] {
            return Err(TensorError::out_of_bounds(idx, dims));
        }
        i += 1;
    }
    match checked_offset(idx, strides) {
        Some(o) => Ok(o),
        None => Err(TensorError::out_of_bounds(idx, dims)),
    }
}

/// Bounds-checked read of the cell `idx` addresses in `data`: the offset
/// is translated, then held against the real buffer length, so a view
/// whose declared shape outruns its buffer fails instead of misreading.
pub(crate) fn read_cell<'a, T>(
    data: &'a [T],
    dims: &[usize],
    strides: &[usize],
    idx: &[usize],
) -> (r: Result<&'a T, TensorError>)
    ensures
        match r {
            Ok(v) => addressable(idx@, dims@, strides@, data@.len()) && *v == data@[flat_offset(
                idx@,
                strides@,
            ) as int],
            Err(e) => {
                &&& !addressable(idx@, dims@, strides@, data@.len())
                &&& e matches TensorError::OutOfBounds { idx: ei, dims: ed } && ei@ == idx@ && ed@
                    == dims@
            },
        },
{
    let dlen = data.len();
    match offset_in(dims, strides, idx) {
        Ok(off) => {
            if off < dlen {
                Ok(&data[off])
            } else {
                Err(TensorError::out_of_bounds(idx, dims))
            }
        },
        Err(e) => Err(e),
    }
}

/// Bounds-checked write of the cell `idx` addresses in `data`; on any
/// failure the buffer is left untouched.
pub(crate) fn write_cell<T>(
    data: &mut Vec<T>,
    dims: &[usize],
    strides: &[usize],
    idx: &[usize],
    val: T,
) -> (r: Result<(), TensorError>)
    ensures
        match r {
            Ok(_) => {
                &&& addressable(idx@, dims@, strides@, old(data)@.len())
                &&& final(data)@ == old(data)@.update(flat_offset(idx@, strides@) as int, val)
            },
            Err(e) => {
                &&& final(data)@ == old(data)@
                &&& !addressable(idx@, dims@, strides@, old(data)@.len())
                &&& e matches TensorError::OutOfBounds { idx: ei, dims: ed } && ei@ == idx@ && ed@
                    == dims@
            },
        },
{
    let dlen = data.len();
    match offset_in(dims, strides, idx) {
        Ok(off) => {
            if off < dlen {
                data[off] = val;
                Ok(())
            } else {
                Err(TensorError::out_of_bounds(idx, dims))
            }
        },
        Err(e) => Err(e),
    }
}

/// Fast-path read: the caller warrants that `idx` addresses a slot inside
/// `data`, and no check is made.
pub(crate) fn read_cell_unchecked<'a, T>(data: &'a [T], strides: &[usize], idx: &[usize]) -> (r:
    &'a T)
    requires
        idx@.len() == strides@.len(),
        flat_offset(idx@, strides@) < data@.len(),
    ensures
        *r == data@[flat_offset(idx@, strides@) as int],
{
    proof {
        vstd::slice::axiom_spec_len(data);
    }
    let off = match checked_offset(idx, strides) {
        Some(o) => o,
        None => {
            assert(false);
            0
        },
    };
    &data[off]
}

/// Fast-path write: the caller warrants that `idx` addresses a slot
/// inside `data`, and no check is made.
pub(crate) fn write_cell_unchecked<T>(data: &mut Vec<T>, strides: &[usize], idx: &[usize], val: T)
    requires
        idx@.len() == strides@.len(),
        flat_offset(idx@, strides@) < old(data)@.len(),
    ensures
        final(data)@ == old(data)@.update(flat_offset(idx@, strides@) as int, val),
{
    let dlen = data.len();
    proof {
        assert(dlen as nat <= usize::MAX as nat);
    }
    let off = match checked_offset(idx, strides) {
        Some(o) => o,
        None => {
            assert(false);
            0
        },
    };
    data[off] = val;
}

} // verus!
