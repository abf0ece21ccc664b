//! Structural pretty-printing of tensor contents: the nested bracket
//! layout over cells the caller has already rendered, handed over flat
//! in row-major order. Rendering an element is the caller's business;
//! the layout is this module's.

use vstd::prelude::*;
use vstd::string::StringExecFns;

use crate::layout::{checked_product, lemma_product_skip_step, product};

verus! {

/// The rendered form of one block: a rank-zero block is its single cell,
/// any other is its sub-blocks between brackets, separated by spaces.
pub open spec fn spec_block(dims: Seq<usize>, cells: Seq<Seq<char>>) -> Seq<char>
    decreases dims.len(), 1int, 0int,
{
    if dims.len() == 0 {
        cells[0]
    } else {
        seq!['['] + spec_row(dims, cells, 0) + seq![']']
    }
}

/// The rendered sub-blocks of one block from child `k` on, separated by
/// single spaces: child `k` covers the `k`-th run of
/// `product(dims.drop_first())` cells.
pub open spec fn spec_row(dims: Seq<usize>, cells: Seq<Seq<char>>, k: int) -> Seq<char>
    decreases dims.len(), 0int, (if dims.len() > 0 { dims[0] - k } else { 0int }),
{
    if dims.len() == 0 || k < 0 || k >= dims[0] {
        Seq::<char>::empty()
    } else {
        let sub = product(dims.drop_first()) as int;
        let child = spec_block(dims.drop_first(), cells.subrange(k * sub, (k + 1) * sub));
        if k + 1 < dims[0] {
            child + seq![' '] + spec_row(dims, cells, k + 1)
        } else {
            child
        }
    }
}

/// Renders the block of cells that sits at `start` and spans the axes
/// from `axis` on.
fn format_block(dims: &[usize], cells: &Vec<String>, axis: usize, start: usize) -> (r: String)
    requires
        axis <= dims@.len(),
        start + product(dims@.skip(axis as int)) <= cells@.len(),
    ensures
        r@ == spec_block(
            dims@.skip(axis as int),
            cells.deep_view().subrange(
                start as int,
                start + product(dims@.skip(axis as int)),
            ),
        ),
    decreases dims@.len() - axis, 1int, 0int,
{
    let n = dims.len();
    if axis == n {
        proof {
            assert(dims@.skip(axis as int) =~= Seq::<usize>::empty());
            assert(cells.deep_view().len() == cells@.len());
            assert(cells.deep_view()[start as int] == cells@[start as int]@);
        }
        let c = &cells[start];
        c.clone()
    } else {
        proof {
            reveal_strlit("[");
            reveal_strlit("]");
            assert("["@ =~= seq!['[']);
            assert("]"@ =~= seq![']']);
        }
        let mut s = "[".to_owned();
        let inner = format_row(dims, cells, axis, start, 0);
        s.append(inner.as_str());
        s.append("]");
        s
    }
}

/// Renders the children of one block from child `k` on, space-separated.
fn format_row(dims: &[usize], cells: &Vec<String>, axis: usize, start: usize, k: usize) -> (r:
    String)
    requires
        axis < dims@.len(),
        k <= dims@[axis as int],
        start + product(dims@.skip(axis as int)) <= cells@.len(),
    ensures
        r@ == spec_row(
            dims@.skip(axis as int),
            cells.deep_view().subrange(
                start as int,
                start + product(dims@.skip(axis as int)),
            ),
            k as int,
        ),
    decreases dims@.len() - axis, 0int, dims@[axis as int] - k,
{
    let n = dims.len();
    let extent = dims[axis];
    proof {
        vstd::std_specs::vec::axiom_spec_len(cells);
        assert(dims@.skip(axis as int)[0] == dims@[axis as int]);
    }
    if k == extent {
        return String::new();
    }
    proof {
        lemma_product_skip_step(dims@, axis as int);
        assert(dims@.subrange(axis as int + 1, n as int) =~= dims@.skip(axis as int + 1));
        assert(product(dims@.skip(axis as int)) <= usize::MAX as nat);
        assert(product(dims@.skip(axis as int + 1)) <= product(dims@.skip(axis as int)))
            by (nonlinear_arith)
            requires
                product(dims@.skip(axis as int)) == dims@[axis as int] as nat * product(
                    dims@.skip(axis as int + 1),
                ),
                dims@[axis as int] >= 1,
        ;
    }
    let sub = match checked_product(&dims[(axis + 1)..n]) {
        Some(p) => p,
        None => {
            assert(false);
            0
        },
    };
    proof {
        assert(k as nat * sub as nat + sub as nat == (k + 1) as nat * sub as nat)
            by (nonlinear_arith);
        assert((k + 1) as nat * sub as nat <= extent as nat * sub as nat) by (nonlinear_arith)
            requires
                k as nat + 1 <= extent as nat,
        ;
        assert(extent as nat * sub as nat == product(dims@.skip(axis as int)));
    }
    let child_start = start + k * sub;
    let mut s = format_block(dims, cells, axis + 1, child_start);
    proof {
        assert(dims@.skip(axis as int).drop_first() =~= dims@.skip(axis as int + 1));
        let w = cells.deep_view().subrange(
            start as int,
            start + product(dims@.skip(axis as int)),
        );
        assert(w.subrange(k as int * sub as int, (k + 1) as int * sub as int)
            =~= cells.deep_view().subrange(
            child_start as int,
            child_start + product(dims@.skip(axis as int + 1)),
        ));
    }
    if k + 1 < extent {
        proof {
            reveal_strlit(" ");
            assert(" "@ =~= seq![' ']);
        }
        s.append(" ");
        let rest = format_row(dims, cells, axis, start, k + 1);
        s.append(rest.as_str());
        s
    } else {
        s
    }
}

/// Renders the nested bracket layout of a whole tensor whose cells were
/// already rendered, in row-major order: one cell per addressable slot.
pub fn format_tensor(dims: &[usize], cells: &Vec<String>) -> (r: String)
    requires
        cells@.len() == product(dims@),
    ensures
        r@ == spec_block(dims@, cells.deep_view()),
{
    proof {
        assert(dims@.skip(0) =~= dims@);
        assert(cells.deep_view().len() == cells@.len());
        assert(cells.deep_view().subrange(0, product(dims@) as int) =~= cells.deep_view());
    }
    format_block(dims, cells, 0, 0)
}

/// Pre-rendered tensor text, kept so a host program can hand it to any
/// writer it likes.
pub struct TensorDisplay {
    pub text: String,
}

/// Renders a whole tensor's bracket layout into a carrier the host can
/// print: the text is exactly `format_tensor`'s.
pub fn display_tensor(dims: &[usize], cells: &Vec<String>) -> (d: TensorDisplay)
    requires
        cells@.len() == product(dims@),
    ensures
        d.text@ == spec_block(dims@, cells.deep_view()),
{
    TensorDisplay { text: format_tensor(dims, cells) }
}

} // verus!
