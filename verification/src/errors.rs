//! Everything that can go wrong when building or addressing a tensor.

use vstd::prelude::*;
use vstd::slice::slice_to_vec;
use vstd::string::StringExecFns;

verus! {

/// The character for one decimal digit.
pub open spec fn dec_digit(d: nat) -> char {
    if d == 0 {
        '0'
    } else if d == 1 {
        '1'
    } else if d == 2 {
        '2'
    } else if d == 3 {
        '3'
    } else if d == 4 {
        '4'
    } else if d == 5 {
        '5'
    } else if d == 6 {
        '6'
    } else if d == 7 {
        '7'
    } else if d == 8 {
        '8'
    } else {
        '9'
    }
}

/// The decimal rendering of a number, most significant digit first.
pub open spec fn dec_chars(n: nat) -> Seq<char>
    decreases n,
{
    if n < 10 {
        seq![dec_digit(n)]
    } else {
        dec_chars(n / 10) + seq![dec_digit(n % 10)]
    }
}

/// The comma-separated decimal renderings of a vector of numbers, as a
/// debug-style list reads between its brackets.
pub open spec fn dec_list_inner(xs: Seq<usize>) -> Seq<char>
    decreases xs.len(),
{
    if xs.len() == 0 {
        Seq::<char>::empty()
    } else if xs.len() == 1 {
        dec_chars(xs[0] as nat)
    } else {
        dec_chars(xs[0] as nat) + seq![',', ' '] + dec_list_inner(xs.drop_first())
    }
}

/// One decimal digit as text.
fn digit_str(d: usize) -> (r: &'static str)
    requires
        d < 10,
    ensures
        r@ == seq![dec_digit(d as nat)],
{
    proof {
        reveal_strlit("0");
        reveal_strlit("1");
        reveal_strlit("2");
        reveal_strlit("3");
        reveal_strlit("4");
        reveal_strlit("5");
        reveal_strlit("6");
        reveal_strlit("7");
        reveal_strlit("8");
        reveal_strlit("9");
    }
    if d == 0 {
        "0"
    } else if d == 1 {
        "1"
    } else if d == 2 {
        "2"
    } else if d == 3 {
        "3"
    } else if d == 4 {
        "4"
    } else if d == 5 {
        "5"
    } else if d == 6 {
        "6"
    } else if d == 7 {
        "7"
    } else if d == 8 {
        "8"
    } else {
        "9"
    }
}

/// Renders a number in decimal.
pub fn format_usize(n: usize) -> (r: String)
    ensures
        r@ == dec_chars(n as nat),
    decreases n,
{
    if n < 10 {
        digit_str(n).to_owned()
    } else {
        let mut prefix = format_usize(n / 10);
        prefix.append(digit_str(n % 10));
        prefix
    }
}

/// Renders the numbers from position `i` on, comma-separated.
fn format_list_from(xs: &[usize], i: usize) -> (r: String)
    requires
        i <= xs@.len(),
    ensures
        r@ == dec_list_inner(xs@.skip(i as int)),
    decreases xs@.len() - i,
{
    let n = xs.len();
    if i == n {
        String::new()
    } else if i + 1 == n {
        proof {
            assert(xs@.skip(i as int)[0] == xs@[i as int]);
        }
        format_usize(xs[i])
    } else {
        proof {
            reveal_strlit(", ");
            assert(", "@ =~= seq![',', ' ']);
            assert(xs@.skip(i as int)[0] == xs@[i as int]);
            assert(xs@.skip(i as int).drop_first() =~= xs@.skip(i as int + 1));
        }
        let mut s = format_usize(xs[i]);
        s.append(", ");
        let rest = format_list_from(xs, i + 1);
        s.append(rest.as_str());
        s
    }
}

/// Renders a vector of numbers the way a debug listing reads:
/// bracketed and comma-separated.
pub fn format_usize_list(xs: &[usize]) -> (r: String)
    ensures
        r@ == seq!['['] + dec_list_inner(xs@) + seq![']'],
{
    proof {
        reveal_strlit("[");
        reveal_strlit("]");
        assert("["@ =~= seq!['[']);
        assert("]"@ =~= seq![']']);
        assert(xs@.skip(0) =~= xs@);
    }
    let mut s = "[".to_owned();
    let inner = format_list_from(xs, 0);
    s.append(inner.as_str());
    s.append("]");
    s
}

/// The errors the library reports. Every fallible operation returns one
/// of these; no checked path aborts the process.
#[derive(Debug)]
pub enum TensorError {
    /// A buffer's length disagrees with the element count its shape asks for.
    ShapeMismatch { expected: usize, got: usize },
    /// An index vector has the wrong rank, or a coordinate at or past its
    /// axis extent, or it addresses a slot past the real buffer.
    OutOfBounds { idx: Vec<usize>, dims: Vec<usize> },
    /// The requested strides cannot be represented in machine words.
    InvalidLayout,
    /// The operation needs a contiguous layout and the value has none.
    NonContiguous,
    /// The operation is not offered by this storage kind, such as a write
    /// through a read-only view.
    UnsupportedOperation,
    /// The operation is not defined for the given element type.
    InvalidOperation,
    /// A free-form message.
    Message(String),
}

/// The one-line description each error renders to.
pub open spec fn spec_message(e: TensorError) -> Seq<char> {
    match e {
        TensorError::ShapeMismatch { expected, got } => "Shape mismatch: expected "@ + dec_chars(
            expected as nat,
        ) + " elements, got "@ + dec_chars(got as nat),
        TensorError::OutOfBounds { idx, dims } => "Index out of bounds: attempted index "@
            + seq!['['] + dec_list_inner(idx@) + seq![']'] + " in tensor with dims "@ + seq!['[']
            + dec_list_inner(dims@) + seq![']'],
        TensorError::InvalidLayout => "Invalid or unsupported memory layout/strides"@,
        TensorError::NonContiguous => "Tensor is not contiguous in memory"@,
        TensorError::UnsupportedOperation => "Operation not supported for this tensor backend"@,
        TensorError::InvalidOperation => "Operation not defined for given element type"@,
        TensorError::Message(m) => "Tensor error: "@ + m@,
    }
}

impl TensorError {
    /// Renders the error as its one-line description.
    pub fn describe(&self) -> (r: String)
        ensures
            r@ == spec_message(*self),
    {
        match self {
            TensorError::ShapeMismatch { expected, got } => {
                let mut s = "Shape mismatch: expected ".to_owned();
                let a = format_usize(*expected);
                s.append(a.as_str());
                s.append(" elements, got ");
                let b = format_usize(*got);
                s.append(b.as_str());
                s
            },
            TensorError::OutOfBounds { idx, dims } => {
                let mut s = "Index out of bounds: attempted index ".to_owned();
                let a = format_usize_list(idx.as_slice());
                s.append(a.as_str());
                s.append(" in tensor with dims ");
                let b = format_usize_list(dims.as_slice());
                s.append(b.as_str());
                s
            },
            TensorError::InvalidLayout => "Invalid or unsupported memory layout/strides".to_owned(),
            TensorError::NonContiguous => "Tensor is not contiguous in memory".to_owned(),
            TensorError::UnsupportedOperation => {
                "Operation not supported for this tensor backend".to_owned()
            },
            TensorError::InvalidOperation => {
                "Operation not defined for given element type".to_owned()
            },
            TensorError::Message(m) => {
                let mut s = "Tensor error: ".to_owned();
                s.append(m.as_str());
                s
            },
        }
    }

    /// Wraps a human-readable message.
    pub fn msg(s: &str) -> (r: TensorError)
        ensures
            r matches TensorError::Message(m) && m@ == s@,
    {
        TensorError::Message(s.to_owned())
    }

    /// The addressing error: the offending index vector and the extents
    /// it was held against.
    pub(crate) fn out_of_bounds(idx: &[usize], dims: &[usize]) -> (e: TensorError)
        ensures
            e matches TensorError::OutOfBounds { idx: ei, dims: ed } && ei@ == idx@ && ed@
                == dims@,
    {
        TensorError::OutOfBounds { idx: slice_to_vec(idx), dims: slice_to_vec(dims) }
    }
}

} // verus!
