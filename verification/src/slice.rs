//! Sub-window slicing: deriving a new view from a tensor plus one index
//! specification per axis.

use vstd::prelude::*;
use vstd::slice::slice_to_vec;

use crate::errors::TensorError;
use crate::layout::{
    flat_offset, is_row_major, lemma_flat_offset_add, lemma_flat_offset_zeros,
    lemma_offset_in_bounds, lemma_slice_base_fits, product, seq_add, valid_index,
};
use crate::layout::checked_offset;
use crate::tensor::Tensor;
use crate::view::{TensorView, TensorViewMut};

verus! {

/// One slicing directive per axis: pin the axis to a single coordinate
/// (collapsing it to extent one), keep a half-open sub-range of it, or
/// keep it unchanged.
#[derive(Debug, Clone)]
pub enum IndexSpec {
    Index(usize),
    Range { start: usize, end: usize },
    All,
}

/// Whether one directive is admissible against its axis extent: a pinned
/// coordinate must lie inside the axis, a range must be non-empty and end
/// inside it, and keeping the axis is always admissible.
pub open spec fn axis_ok(s: IndexSpec, extent: usize) -> bool {
    match s {
        IndexSpec::Index(i) => i < extent,
        IndexSpec::Range { start, end } => end <= extent && start < end,
        IndexSpec::All => true,
    }
}

/// The coordinate on the source axis where the sliced window begins.
pub open spec fn axis_start(s: IndexSpec) -> usize {
    match s {
        IndexSpec::Index(i) => i,
        IndexSpec::Range { start, end } => start,
        IndexSpec::All => 0,
    }
}

/// The extent the axis has after slicing.
pub open spec fn axis_extent(s: IndexSpec, extent: usize) -> usize {
    match s {
        IndexSpec::Index(_) => 1,
        IndexSpec::Range { start, end } => (end - start) as usize,
        IndexSpec::All => extent,
    }
}

/// The coordinates a rejected directive reports.
pub open spec fn axis_payload(s: IndexSpec) -> Seq<usize> {
    match s {
        IndexSpec::Index(i) => seq![i],
        IndexSpec::Range { start, end } => seq![start, end],
        IndexSpec::All => Seq::<usize>::empty(),
    }
}

/// Whether a whole directive vector is admissible: one directive per
/// axis, each admissible against its extent.
pub open spec fn specs_ok(specs: Seq<IndexSpec>, dims: Seq<usize>) -> bool {
    &&& specs.len() == dims.len()
    &&& forall|i: int| #![trigger specs[i]] 0 <= i < specs.len() ==> axis_ok(specs[i], dims[i])
}

/// The extents of the sliced window.
pub open spec fn sliced_dims(specs: Seq<IndexSpec>, dims: Seq<usize>) -> Seq<usize> {
    Seq::new(dims.len(), |i: int| axis_extent(specs[i], dims[i]))
}

/// The per-axis start coordinates of the sliced window.
pub open spec fn starts_of(specs: Seq<IndexSpec>) -> Seq<usize> {
    specs.map_values(|s: IndexSpec| axis_start(s))
}

/// The per-axis validation and base-offset computation that both slicing
/// entry points share: axes are validated left to right, the first
/// violated axis determines the error, strides carry over unchanged, and
/// the base offset is the flat offset of the per-axis starts.
fn apply_specs(dims: &[usize], strides: &[usize], specs: &[IndexSpec]) -> (r: Result<
    (Vec<usize>, Vec<usize>, usize),
    TensorError,
>)
    requires
        is_row_major(dims@, strides@),
        product(dims@) <= usize::MAX as nat,
    ensures
        match r {
            Ok(out) => {
                &&& specs_ok(specs@, dims@)
                &&& out.0@ == sliced_dims(specs@, dims@)
                &&& out.1@ == strides@
                &&& out.2 as nat == flat_offset(starts_of(specs@), strides@)
            },
            Err(e) => {
                &&& !specs_ok(specs@, dims@)
                &&& e matches TensorError::OutOfBounds { idx: ei, dims: ed } && ed@ == dims@ && (
                if specs@.len() != dims@.len() {
                    ei@ == Seq::<usize>::empty()
                } else {
                    exists|j: int|
                        #![trigger specs@[j]]
                        {
                            &&& 0 <= j < specs@.len()
                            &&& !axis_ok(specs@[j], dims@[j])
                            &&& (forall|k: int|
                                #![trigger specs@[k]]
                                0 <= k < j ==> axis_ok(specs@[k], dims@[k]))
                            &&& ei@ == axis_payload(specs@[j])
                        }
                })
            },
        },
{
    let n = dims.len();
    if specs.len() != n {
        return Err(TensorError::OutOfBounds {
            idx: Vec::new(),
            dims: slice_to_vec(dims),
        });
    }
    let mut new_dims: Vec<usize> = Vec::new();
    let mut starts: Vec<usize> = Vec::new();
    let mut i: usize = 0;
    while i < n
        invariant
            0 <= i <= n,
            n == dims@.len(),
            specs@.len() == n,
            strides@.len() == n,
            new_dims@.len() == i,
            starts@.len() == i,
            forall|j: int| #![trigger specs@[j]] 0 <= j < i ==> axis_ok(specs@[j], dims@[j]),
            forall|j: int|
                #![trigger new_dims@[j]]
                0 <= j < i ==> new_dims@[j] == axis_extent(specs@[j], dims@[j]),
            forall|j: int|
                #![trigger starts@[j]]
                0 <= j < i ==> starts@[j] == axis_start(specs@[j]),
        decreases n - i,
    {
        match &specs[i] {
            IndexSpec::Index(ix) => {
                if *ix >= dims[i] {
                    let mut payload: Vec<usize> = Vec::new();
                    payload.push(*ix);
                    proof {
                        assert(payload@ =~= axis_payload(specs@[i as int]));
                    }
                    return Err(TensorError::OutOfBounds {
                        idx: payload,
                        dims: slice_to_vec(dims),
                    });
                }
                starts.push(*ix);
                new_dims.push(1);
            },
            IndexSpec::Range { start, end } => {
                if *end > dims[i] || *start >= *end {
                    let mut payload: Vec<usize> = Vec::new();
                    payload.push(*start);
                    payload.push(*end);
                    proof {
                        assert(payload@ =~= axis_payload(specs@[i as int]));
                    }
                    return Err(TensorError::OutOfBounds {
                        idx: payload,
                        dims: slice_to_vec(dims),
                    });
                }
                starts.push(*start);
                new_dims.push(*end - *start);
            },
            IndexSpec::All => {
                starts.push(0);
                new_dims.push(dims[i]);
            },
        }
        i += 1;
    }
    proof {
        assert(new_dims@ =~= sliced_dims(specs@, dims@));
        assert(starts@ =~= starts_of(specs@));
        assert forall|j: int| #![trigger starts@[j]] 0 <= j < starts@.len() implies starts@[j] == 0
            || starts@[j] < dims@[j] by {
            assert(axis_ok(specs@[j], dims@[j]));
        }
        lemma_slice_base_fits(starts@, dims@, strides@);
    }
    let base = match checked_offset(starts.as_slice(), strides) {
        Some(o) => o,
        None => {
            assert(false);
            0
        },
    };
    Ok((new_dims, slice_to_vec(strides), base))
}

impl<T> Tensor<T> {
    /// Derives a read-only sub-window view. Axes are inspected left to
    /// right against one directive each; the first violated axis reports
    /// its coordinates and the tensor's extents. On success the view
    /// keeps the source strides verbatim, its extents follow the
    /// directives, and it borrows the source buffer from the accumulated
    /// base offset on, so no element is copied.
    pub fn slice(&self, specs: &[IndexSpec]) -> (r: Result<TensorView<'_, T>, TensorError>)
        requires
            self.wf(),
        ensures
            match r {
                Ok(v) => {
                    &&& specs_ok(specs@, self.dims@)
                    &&& v.dims@ == sliced_dims(specs@, self.dims@)
                    &&& v.strides@ == self.strides@
                    &&& flat_offset(starts_of(specs@), self.strides@) <= self.data@.len()
                        ==> v.data@ == self.data@.skip(
                        flat_offset(starts_of(specs@), self.strides@) as int,
                    )
                    &&& flat_offset(starts_of(specs@), self.strides@) > self.data@.len()
                        ==> v.data@ == Seq::<T>::empty()
                },
                Err(e) => {
                    &&& !specs_ok(specs@, self.dims@)
                    &&& e matches TensorError::OutOfBounds { idx: ei, dims: ed } && ed@
                        == self.dims@ && (if specs@.len() != self.dims@.len() {
                        ei@ == Seq::<usize>::empty()
                    } else {
                        exists|j: int|
                            #![trigger specs@[j]]
                            {
                                &&& 0 <= j < specs@.len()
                                &&& !axis_ok(specs@[j], self.dims@[j])
                                &&& (forall|k: int|
                                    #![trigger specs@[k]]
                                    0 <= k < j ==> axis_ok(specs@[k], self.dims@[k]))
                                &&& ei@ == axis_payload(specs@[j])
                            }
                    })
                },
            },
    {
        let dlen = self.data.len();
        match apply_specs(self.dims.as_slice(), self.strides.as_slice(), specs) {
            Ok((new_dims, new_strides, base)) => {
                let w = if base <= dlen {
                    base
                } else {
                    dlen
                };
                let window = &self.data.as_slice()[w..dlen];
                proof {
                    assert(window@ =~= self.data@.skip(w as int));
                    if base > dlen {
                        assert(window@ =~= Seq::<T>::empty());
                    }
                }
                Ok(TensorView::new(new_dims, new_strides, window))
            },
            Err(e) => Err(e),
        }
    }

    /// Derives a read-write sub-window handle, validated exactly as
    /// `slice` is: same extents, same carried-over strides, and the
    /// accumulated base offset stored in the handle.
    pub fn slice_mut(&self, specs: &[IndexSpec]) -> (r: Result<TensorViewMut, TensorError>)
        requires
            self.wf(),
        ensures
            match r {
                Ok(v) => {
                    &&& specs_ok(specs@, self.dims@)
                    &&& v.dims@ == sliced_dims(specs@, self.dims@)
                    &&& v.strides@ == self.strides@
                    &&& v.base as nat == flat_offset(starts_of(specs@), self.strides@)
                },
                Err(e) => {
                    &&& !specs_ok(specs@, self.dims@)
                    &&& e matches TensorError::OutOfBounds { idx: ei, dims: ed } && ed@
                        == self.dims@ && (if specs@.len() != self.dims@.len() {
                        ei@ == Seq::<usize>::empty()
                    } else {
                        exists|j: int|
                            #![trigger specs@[j]]
                            {
                                &&& 0 <= j < specs@.len()
                                &&& !axis_ok(specs@[j], self.dims@[j])
                                &&& (forall|k: int|
                                    #![trigger specs@[k]]
                                    0 <= k < j ==> axis_ok(specs@[k], self.dims@[k]))
                                &&& ei@ == axis_payload(specs@[j])
                            }
                    })
                },
            },
    {
        proof {
            vstd::std_specs::vec::axiom_spec_len(&self.data);
        }
        match apply_specs(self.dims.as_slice(), self.strides.as_slice(), specs) {
            Ok((new_dims, new_strides, base)) => Ok(TensorViewMut::new(new_dims, new_strides, base)),
            Err(e) => Err(e),
        }
    }
}

/// What a slice reads: a local index valid for the sliced extents maps to
/// the source cell whose coordinate on each axis is the directive's start
/// plus the local coordinate. The mapped index is valid for the source,
/// the base and local offsets compose additively, and the addressed slot
/// lies inside the source buffer — so a pinned axis reads coordinate `i`,
/// a range axis at local `j` reads global `start + j`, and a kept axis
/// reads the source unchanged.
pub proof fn lemma_slice_reads<T>(t: Tensor<T>, specs: Seq<IndexSpec>, lidx: Seq<usize>)
    requires
        t.wf(),
        specs_ok(specs, t.dims@),
        valid_index(lidx, sliced_dims(specs, t.dims@)),
    ensures
        valid_index(seq_add(starts_of(specs), lidx), t.dims@),
        flat_offset(seq_add(starts_of(specs), lidx), t.strides@) == flat_offset(
            starts_of(specs),
            t.strides@,
        ) + flat_offset(lidx, t.strides@),
        flat_offset(starts_of(specs), t.strides@) + flat_offset(lidx, t.strides@)
            < t.data@.len(),
        t.data@.skip(flat_offset(starts_of(specs), t.strides@) as int)[flat_offset(
            lidx,
            t.strides@,
        ) as int] == t.data@[flat_offset(seq_add(starts_of(specs), lidx), t.strides@) as int],
{
    let starts = starts_of(specs);
    let gidx = seq_add(starts, lidx);
    assert forall|i: int| 0 <= i < starts.len() implies #[trigger] starts[i] + lidx[i]
        < t.dims@[i] by {
        assert(axis_ok(specs[i], t.dims@[i]));
        assert(starts[i] == axis_start(specs[i]));
        assert(lidx[i] < axis_extent(specs[i], t.dims@[i]));
    }
    assert(valid_index(gidx, t.dims@));
    assert forall|i: int| #![trigger starts[i]] 0 <= i < starts.len() implies starts[i] + lidx[i]
        <= usize::MAX by {
        assert(starts[i] + lidx[i] < t.dims@[i]);
    }
    lemma_flat_offset_add(starts, lidx, t.strides@);
    lemma_offset_in_bounds(gidx, t.dims@, t.strides@);
}

/// Slicing every axis with the keep-it directive changes nothing: the
/// window has the source's extents and strides and starts at its base.
pub proof fn lemma_slice_full_identity<T>(t: Tensor<T>, specs: Seq<IndexSpec>)
    requires
        t.wf(),
        specs.len() == t.dims@.len(),
        forall|i: int| #![trigger specs[i]] 0 <= i < specs.len() ==> specs[i] == IndexSpec::All,
    ensures
        specs_ok(specs, t.dims@),
        sliced_dims(specs, t.dims@) == t.dims@,
        flat_offset(starts_of(specs), t.strides@) == 0,
{
    assert(sliced_dims(specs, t.dims@) =~= t.dims@);
    let starts = starts_of(specs);
    assert forall|i: int| #![trigger starts[i]] 0 <= i < starts.len() implies starts[i] == 0 by {
        assert(specs[i] == IndexSpec::All);
    }
    lemma_flat_offset_zeros(starts, t.strides@);
}

} // verus!
