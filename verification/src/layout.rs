//! The strided addressing model: extent products, row-major strides, and
//! the flat buffer offset that an index vector addresses.

use vstd::prelude::*;

verus! {

/// Number of cells a shape `dims` addresses: the product of all extents
/// (one for the empty shape, zero as soon as any extent is zero).
pub open spec fn product(dims: Seq<usize>) -> nat
    decreases dims.len(),
{
    if dims.len() == 0 {
        1
    } else {
        dims[0] as nat * product(dims.drop_first())
    }
}

/// `idx` picks one cell of a tensor with extents `dims`: one coordinate
/// per axis, each strictly below its extent.
pub open spec fn valid_index(idx: Seq<usize>, dims: Seq<usize>) -> bool {
    &&& idx.len() == dims.len()
    &&& forall|i: int|
        #![trigger idx[i]]
        #![trigger dims[i]]
        0 <= i < idx.len() ==> idx[i] < dims[i]
}

/// Row-major strides over `dims`: the last axis moves by one slot, and
/// each axis moves by the product of the extents of the axes inside it.
pub open spec fn is_row_major(dims: Seq<usize>, strides: Seq<usize>) -> bool {
    &&& strides.len() == dims.len()
    &&& forall|i: int|
        #![trigger strides[i]]
        0 <= i < dims.len() ==> strides[i] as nat == product(dims.skip(i + 1))
}

/// Every suffix product of `dims` fits in `usize`, so row-major strides
/// over `dims` are representable.
pub open spec fn strides_fit(dims: Seq<usize>) -> bool {
    forall|i: int|
        #![trigger dims.skip(i)]
        0 <= i <= dims.len() ==> product(dims.skip(i)) <= usize::MAX as nat
}

/// The buffer slot that an index vector addresses: the stride-weighted
/// sum of its coordinates.
pub open spec fn flat_offset(idx: Seq<usize>, strides: Seq<usize>) -> nat
    decreases idx.len(),
{
    if idx.len() == 0 {
        0
    } else {
        idx[0] as nat * strides[0] as nat + flat_offset(idx.drop_first(), strides.drop_first())
    }
}

/// Pointwise sum of two coordinate vectors (used to compose a slice's
/// base coordinates with an index local to the slice).
pub open spec fn seq_add(a: Seq<usize>, b: Seq<usize>) -> Seq<usize> {
    Seq::new(a.len(), |i: int| (a[i] + b[i]) as usize)
}

/// Unrolls `product` at axis `i`: a suffix product is its first extent
/// times the next suffix product.
pub proof fn lemma_product_skip_step(dims: Seq<usize>, i: int)
    requires
        0 <= i < dims.len(),
    ensures
        product(dims.skip(i)) == dims[i] as nat * product(dims.skip(i + 1)),
{
    assert(dims.skip(i).drop_first() =~= dims.skip(i + 1));
    assert(dims.skip(i)[0] == dims[i]);
    assert(product(dims.skip(i)) == dims.skip(i)[0] as nat * product(dims.skip(i).drop_first()));
}

/// Unrolls `flat_offset` at position `i` over the coordinate suffixes.
pub proof fn lemma_flat_offset_skip_step(idx: Seq<usize>, strides: Seq<usize>, i: int)
    requires
        idx.len() == strides.len(),
        0 <= i < idx.len(),
    ensures
        flat_offset(idx.skip(i), strides.skip(i)) == idx[i] as nat * strides[i] as nat
            + flat_offset(idx.skip(i + 1), strides.skip(i + 1)),
{
    assert(idx.skip(i).drop_first() =~= idx.skip(i + 1));
    assert(strides.skip(i).drop_first() =~= strides.skip(i + 1));
    assert(idx.skip(i)[0] == idx[i]);
    assert(strides.skip(i)[0] == strides[i]);
    assert(flat_offset(idx.skip(i), strides.skip(i)) == idx.skip(i)[0] as nat * strides.skip(
        i,
    )[0] as nat + flat_offset(idx.skip(i).drop_first(), strides.skip(i).drop_first()));
}

/// A valid index of a row-major layout addresses a slot strictly below
/// the layout's element count.
pub proof fn lemma_offset_in_bounds(idx: Seq<usize>, dims: Seq<usize>, strides: Seq<usize>)
    requires
        valid_index(idx, dims),
        is_row_major(dims, strides),
    ensures
        flat_offset(idx, strides) < product(dims),
    decreases idx.len(),
{
    if idx.len() == 0 {
    } else {
        let s = product(dims.skip(1));
        assert(dims.drop_first() =~= dims.skip(1));
        assert(idx.drop_first() =~= idx.skip(1));
        assert(strides.drop_first() =~= strides.skip(1));
        assert(strides[0] as nat == s);
        assert(valid_index(idx.drop_first(), dims.drop_first()));
        lemma_row_major_drop_first(dims, strides);
        lemma_offset_in_bounds(idx.drop_first(), dims.drop_first(), strides.drop_first());
        let rest = flat_offset(idx.drop_first(), strides.drop_first());
        assert(rest < s);
        assert(product(dims) == dims[0] as nat * s);
        assert(idx[0] as nat * s + rest < dims[0] as nat * s) by (nonlinear_arith)
            requires
                idx[0] < dims[0],
                rest < s,
        ;
    }
}

/// No two distinct valid indices of a row-major layout address the same
/// slot: the flat offset is injective over the valid index space.
pub proof fn lemma_offset_injective(
    a: Seq<usize>,
    b: Seq<usize>,
    dims: Seq<usize>,
    strides: Seq<usize>,
)
    requires
        valid_index(a, dims),
        valid_index(b, dims),
        is_row_major(dims, strides),
        flat_offset(a, strides) == flat_offset(b, strides),
    ensures
        a == b,
    decreases a.len(),
{
    if a.len() == 0 {
        assert(a =~= b);
    } else {
        let s = product(dims.skip(1));
        assert(dims.drop_first() =~= dims.skip(1));
        assert(strides[0] as nat == s);
        lemma_row_major_drop_first(dims, strides);
        assert(valid_index(a.drop_first(), dims.drop_first()));
        assert(valid_index(b.drop_first(), dims.drop_first()));
        lemma_offset_in_bounds(a.drop_first(), dims.drop_first(), strides.drop_first());
        lemma_offset_in_bounds(b.drop_first(), dims.drop_first(), strides.drop_first());
        let ra = flat_offset(a.drop_first(), strides.drop_first());
        let rb = flat_offset(b.drop_first(), strides.drop_first());
        assert(a[0] as nat * s + ra == b[0] as nat * s + rb);
        assert(a[0] == b[0]) by (nonlinear_arith)
            requires
                a[0] as nat * s + ra == b[0] as nat * s + rb,
                ra < s,
                rb < s,
        ;
        assert(a[0] as nat * s == b[0] as nat * s);
        assert(ra == rb);
        lemma_offset_injective(a.drop_first(), b.drop_first(), dims.drop_first(), strides.drop_first());
        assert forall|i: int| 0 <= i < a.len() implies #[trigger] a[i] == b[i] by {
            if i > 0 {
                assert(a.drop_first()[i - 1] == b.drop_first()[i - 1]);
            }
        }
        assert(a =~= b);
    }
}

/// A product of positive extents is positive.
pub proof fn lemma_product_positive(dims: Seq<usize>)
    requires
        forall|i: int| #![trigger dims[i]] 0 <= i < dims.len() ==> dims[i] >= 1,
    ensures
        product(dims) >= 1,
    decreases dims.len(),
{
    if dims.len() == 0 {
    } else {
        lemma_product_positive(dims.drop_first());
        assert(product(dims) >= 1) by (nonlinear_arith)
            requires
                product(dims) == dims[0] as nat * product(dims.drop_first()),
                dims[0] >= 1,
                product(dims.drop_first()) >= 1,
        ;
    }
}

/// The product is zero exactly when some extent is zero.
pub proof fn lemma_product_zero(dims: Seq<usize>)
    ensures
        (product(dims) == 0) <==> (exists|i: int|
            #![trigger dims[i]]
            0 <= i < dims.len() && dims[i] == 0),
    decreases dims.len(),
{
    if dims.len() == 0 {
    } else {
        lemma_product_zero(dims.drop_first());
        let rest = product(dims.drop_first());
        assert((product(dims) == 0) <==> (dims[0] == 0 || rest == 0)) by (nonlinear_arith)
            requires
                product(dims) == dims[0] as nat * rest,
        ;
        if dims[0] == 0 {
            assert(0 <= 0 < dims.len() && dims[0] == 0);
        } else if rest == 0 {
            let j = choose|j: int| 0 <= j < dims.drop_first().len() && dims.drop_first()[j] == 0;
            assert(dims[j + 1] == 0);
        } else {
            assert forall|i: int| 0 <= i < dims.len() implies #[trigger] dims[i] != 0 by {
                if i > 0 {
                    assert(dims.drop_first()[i - 1] == dims[i]);
                }
            }
        }
    }
}

/// Composing a base coordinate vector with a local one adds their flat
/// offsets: addressing is linear in the coordinates.
pub proof fn lemma_flat_offset_add(a: Seq<usize>, b: Seq<usize>, strides: Seq<usize>)
    requires
        a.len() == b.len(),
        b.len() == strides.len(),
        forall|i: int| #![trigger a[i]] 0 <= i < a.len() ==> a[i] + b[i] <= usize::MAX,
    ensures
        flat_offset(seq_add(a, b), strides) == flat_offset(a, strides) + flat_offset(b, strides),
    decreases a.len(),
{
    if a.len() == 0 {
    } else {
        assert(seq_add(a, b).drop_first() =~= seq_add(a.drop_first(), b.drop_first()));
        assert forall|i: int| #![trigger a.drop_first()[i]] 0 <= i < a.drop_first().len() implies a.drop_first()[i]
            + b.drop_first()[i] <= usize::MAX by {
            assert(a.drop_first()[i] == a[i + 1]);
            assert(b.drop_first()[i] == b[i + 1]);
        }
        lemma_flat_offset_add(a.drop_first(), b.drop_first(), strides.drop_first());
        assert(seq_add(a, b)[0] == (a[0] + b[0]) as usize);
        assert((a[0] + b[0]) as nat * strides[0] as nat == a[0] as nat * strides[0] as nat + b[0] as nat
            * strides[0] as nat) by (nonlinear_arith);
    }
}

/// Dropping the outermost axis of a row-major layout leaves a row-major
/// layout.
pub proof fn lemma_row_major_drop_first(dims: Seq<usize>, strides: Seq<usize>)
    requires
        is_row_major(dims, strides),
        dims.len() > 0,
    ensures
        is_row_major(dims.drop_first(), strides.drop_first()),
{
    assert forall|i: int| 0 <= i < dims.drop_first().len() implies #[trigger] strides.drop_first()[i] as nat
        == product(dims.drop_first().skip(i + 1)) by {
        assert(dims.drop_first().skip(i + 1) =~= dims.skip(i + 2));
        assert(strides.drop_first()[i] == strides[i + 1]);
    }
}

/// Once the whole product fits `usize`, so does every suffix product: for
/// the inner axes it is a stride, itself a machine word.
pub proof fn lemma_row_major_strides_fit(dims: Seq<usize>, strides: Seq<usize>)
    requires
        is_row_major(dims, strides),
        product(dims) <= usize::MAX as nat,
    ensures
        strides_fit(dims),
{
    assert forall|i: int| 0 <= i <= dims.len() implies product(#[trigger] dims.skip(i))
        <= usize::MAX as nat by {
        if i == 0 {
            assert(dims.skip(0) =~= dims);
        } else if i == dims.len() {
            assert(dims.skip(i) =~= Seq::<usize>::empty());
        } else {
            assert(strides[i - 1] as nat == product(dims.skip(i)));
        }
    }
}

/// A coordinate vector of zeros addresses the base slot.
pub proof fn lemma_flat_offset_zeros(starts: Seq<usize>, strides: Seq<usize>)
    requires
        forall|i: int| #![trigger starts[i]] 0 <= i < starts.len() ==> starts[i] == 0,
    ensures
        flat_offset(starts, strides) == 0,
    decreases starts.len(),
{
    if starts.len() == 0 {
    } else {
        assert(starts[0] == 0);
        assert forall|i: int| #![trigger starts.drop_first()[i]] 0 <= i < starts.drop_first().len()
            implies starts.drop_first()[i] == 0 by {
            assert(starts.drop_first()[i] == starts[i + 1]);
        }
        lemma_flat_offset_zeros(starts.drop_first(), strides.drop_first());
    }
}

/// The largest span the axes after the last zero extent address: the
/// whole product where no extent is zero.
spec fn tail_product(dims: Seq<usize>) -> nat
    decreases dims.len(),
{
    if dims.len() == 0 {
        1
    } else if product(dims.drop_first()) == 0 {
        tail_product(dims.drop_first())
    } else if dims[0] == 0 {
        product(dims.drop_first())
    } else {
        dims[0] as nat * product(dims.drop_first())
    }
}

/// Where no extent is zero, the tail span is the whole product.
proof fn lemma_tail_product_no_zero(dims: Seq<usize>)
    requires
        product(dims) != 0,
    ensures
        tail_product(dims) == product(dims),
{
    if dims.len() == 0 {
    } else {
        assert(product(dims) == dims[0] as nat * product(dims.drop_first()));
        if product(dims.drop_first()) == 0 {
            assert(product(dims) == 0) by (nonlinear_arith)
                requires
                    product(dims) == dims[0] as nat * product(dims.drop_first()),
                    product(dims.drop_first()) == 0,
            ;
        }
        if dims[0] == 0 {
            assert(product(dims) == 0) by (nonlinear_arith)
                requires
                    product(dims) == dims[0] as nat * product(dims.drop_first()),
                    dims[0] == 0,
            ;
        }
    }
}

/// A vector of per-axis slice starts (each zero or inside its extent)
/// addresses a representable slot, even where some extent is zero and
/// the telescoping bound through the whole product breaks down.
proof fn lemma_tail_product_bound(starts: Seq<usize>, dims: Seq<usize>, strides: Seq<usize>)
    requires
        is_row_major(dims, strides),
        strides_fit(dims),
        starts.len() == dims.len(),
        forall|i: int|
            #![trigger starts[i]]
            0 <= i < starts.len() ==> starts[i] == 0 || starts[i] < dims[i],
    ensures
        flat_offset(starts, strides) < tail_product(dims),
        tail_product(dims) <= usize::MAX as nat,
    decreases dims.len(),
{
    if dims.len() == 0 {
        assert(dims.skip(0) =~= dims);
    } else {
        let dt = dims.drop_first();
        let st = strides.drop_first();
        lemma_row_major_drop_first(dims, strides);
        assert forall|i: int| 0 <= i <= dt.len() implies product(#[trigger] dt.skip(i))
            <= usize::MAX as nat by {
            assert(dt.skip(i) =~= dims.skip(i + 1));
        }
        assert forall|i: int| #![trigger starts.drop_first()[i]] 0 <= i < starts.drop_first().len()
            implies starts.drop_first()[i] == 0 || starts.drop_first()[i] < dt[i] by {
            assert(starts.drop_first()[i] == starts[i + 1]);
            assert(dt[i] == dims[i + 1]);
        }
        lemma_tail_product_bound(starts.drop_first(), dt, st);
        let rest = flat_offset(starts.drop_first(), st);
        assert(dims.drop_first() =~= dims.skip(1));
        assert(strides[0] as nat == product(dt));
        if product(dt) == 0 {
            assert(starts[0] as nat * strides[0] as nat == 0) by (nonlinear_arith)
                requires
                    strides[0] as nat == 0,
            ;
            assert(tail_product(dims) == tail_product(dt));
        } else if dims[0] == 0 {
            assert(starts[0] == 0);
            assert(tail_product(dims) == product(dt));
            assert(rest < tail_product(dt));
            lemma_tail_product_no_zero(dt);
        } else {
            assert(tail_product(dims) == dims[0] as nat * product(dt));
            lemma_tail_product_no_zero(dt);
            if starts[0] == 0 {
                assert(flat_offset(starts, strides) == rest);
                assert(rest < product(dt));
                assert(product(dt) <= dims[0] as nat * product(dt)) by (nonlinear_arith)
                    requires
                        dims[0] >= 1,
                ;
            } else {
                assert(starts[0] as nat * product(dt) + rest < dims[0] as nat * product(dt))
                    by (nonlinear_arith)
                    requires
                        starts[0] < dims[0],
                        rest < product(dt),
                ;
            }
            assert(product(dims) == dims[0] as nat * product(dt));
            assert(dims.skip(0) =~= dims);
        }
    }
}

/// Exposes the start-vector bound with the crate-facing statement: the
/// base offset a slice accumulates fits a machine word.
pub(crate) proof fn lemma_slice_base_fits(starts: Seq<usize>, dims: Seq<usize>, strides: Seq<usize>)
    requires
        is_row_major(dims, strides),
        product(dims) <= usize::MAX as nat,
        starts.len() == dims.len(),
        forall|i: int|
            #![trigger starts[i]]
            0 <= i < starts.len() ==> starts[i] == 0 || starts[i] < dims[i],
    ensures
        flat_offset(starts, strides) <= usize::MAX as nat,
{
    lemma_row_major_strides_fit(dims, strides);
    lemma_tail_product_bound(starts, dims, strides);
}

/// The product of all extents, or `None` where it does not fit `usize`.
pub fn checked_product(dims: &[usize]) -> (r: Option<usize>)
    ensures
        match r {
            Some(p) => p as nat == product(dims@),
            None => product(dims@) > usize::MAX as nat,
        },
{
    let n = dims.len();
    let mut i: usize = 0;
    while i < n
        invariant
            0 <= i <= n,
            n == dims@.len(),
            forall|j: int| #![trigger dims@[j]] 0 <= j < i ==> dims@[j] >= 1,
        decreases n - i,
    {
        if dims[i] == 0 {
            proof {
                lemma_product_zero(dims@);
            }
            return Some(0);
        }
        i += 1;
    }
    let ghost all_pos = forall|j: int| #![trigger dims@[j]] 0 <= j < n ==> dims@[j] >= 1;
    let mut acc: usize = 1;
    let mut k: usize = 0;
    proof {
        assert(dims@.skip(0) =~= dims@);
    }
    while k < n
        invariant
            0 <= k <= n,
            n == dims@.len(),
            forall|j: int| #![trigger dims@[j]] 0 <= j < n ==> dims@[j] >= 1,
            acc as nat * product(dims@.skip(k as int)) == product(dims@),
        decreases n - k,
    {
        proof {
            lemma_product_skip_step(dims@, k as int);
        }
        match acc.checked_mul(dims[k]) {
            Some(next) => {
                proof {
                    assert(next as nat * product(dims@.skip(k as int + 1)) == product(dims@))
                        by (nonlinear_arith)
                        requires
                            acc as nat * product(dims@.skip(k as int)) == product(dims@),
                            product(dims@.skip(k as int)) == dims@[k as int] as nat * product(
                                dims@.skip(k as int + 1),
                            ),
                            next == acc as nat * dims@[k as int] as nat,
                    ;
                }
                acc = next;
            },
            None => {
                proof {
                    assert forall|j: int| 0 <= j < dims@.skip(k as int + 1).len() implies #[trigger] dims@.skip(
                        k as int + 1,
                    )[j] >= 1 by {
                        assert(dims@.skip(k as int + 1)[j] == dims@[k as int + 1 + j]);
                    }
                    lemma_product_positive(dims@.skip(k as int + 1));
                    assert(product(dims@) > usize::MAX as nat) by (nonlinear_arith)
                        requires
                            acc as nat * product(dims@.skip(k as int)) == product(dims@),
                            product(dims@.skip(k as int)) == dims@[k as int] as nat * product(
                                dims@.skip(k as int + 1),
                            ),
                            product(dims@.skip(k as int + 1)) >= 1,
                            acc as nat * dims@[k as int] as nat > usize::MAX as nat,
                    ;
                }
                return None;
            },
        }
        k += 1;
    }
    proof {
        assert(dims@.skip(n as int) =~= Seq::<usize>::empty());
        assert(product(dims@.skip(n as int)) == 1);
        assert(acc as nat * 1 == acc as nat) by (nonlinear_arith);
    }
    Some(acc)
}

/// The flat offset of `idx` under `strides`, or `None` where it does not
/// fit `usize` (such a slot lies beyond any real buffer).
pub fn checked_offset(idx: &[usize], strides: &[usize]) -> (r: Option<usize>)
    requires
        idx@.len() == strides@.len(),
    ensures
        match r {
            Some(o) => o as nat == flat_offset(idx@, strides@),
            None => flat_offset(idx@, strides@) > usize::MAX as nat,
        },
{
    let n = idx.len();
    let mut acc: usize = 0;
    let mut i: usize = 0;
    proof {
        assert(idx@.skip(0) =~= idx@);
        assert(strides@.skip(0) =~= strides@);
    }
    while i < n
        invariant
            0 <= i <= n,
            n == idx@.len(),
            idx@.len() == strides@.len(),
            acc as nat + flat_offset(idx@.skip(i as int), strides@.skip(i as int)) == flat_offset(
                idx@,
                strides@,
            ),
        decreases n - i,
    {
        proof {
            lemma_flat_offset_skip_step(idx@, strides@, i as int);
        }
        let term = match idx[i].checked_mul(strides[i]) {
            Some(t) => t,
            None => {
                return None;
            },
        };
        match acc.checked_add(term) {
            Some(next) => {
                acc = next;
            },
            None => {
                return None;
            },
        }
        i += 1;
    }
    proof {
        assert(idx@.skip(n as int) =~= Seq::<usize>::empty());
    }
    Some(acc)
}

} // verus!
