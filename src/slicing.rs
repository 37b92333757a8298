use vstd::prelude::*;

use crate::text::py_slice_str;

verus! {

/// Clamps `x` into `[0, n]`.
pub open spec fn clamp_index(x: int, n: int) -> int {
    if x < 0 {
        0
    } else if x > n {
        n
    } else {
        x
    }
}

/// Folds a possibly negative index by adding the length once.
pub open spec fn fold_index(x: int, n: int) -> int {
    if x < 0 {
        x + n
    } else {
        x
    }
}

/// The start of the closed-open range that `[start:end]` selects in a sequence of length `n`.
pub open spec fn slice_start(n: int, start: Option<i64>) -> int {
    clamp_index(fold_index(if start is Some { start->0 as int } else { 0 }, n), n)
}

/// The end of the closed-open range that `[start:end]` selects in a sequence of length `n`;
/// never before the start.
pub open spec fn slice_end(n: int, start: Option<i64>, end: Option<i64>) -> int {
    let e = clamp_index(fold_index(if end is Some { end->0 as int } else { n }, n), n);
    let s = slice_start(n, start);
    if e < s {
        s
    } else {
        e
    }
}

/// The part of `xs` that the Python slice `xs[start:end]` denotes.
pub open spec fn slice_of<T>(xs: Seq<T>, start: Option<i64>, end: Option<i64>) -> Seq<T> {
    xs.subrange(slice_start(xs.len() as int, start), slice_end(xs.len() as int, start, end))
}

/// Resolves optional Python slice bounds against a length: absent bounds mean the whole
/// range, negative ones count from the end, and both are clamped into `[0, len]` with
/// the end never before the start.
pub fn normalize_slice_range(len: i64, start: Option<i64>, end: Option<i64>) -> (r: (usize, usize))
    requires
        0 <= len <= usize::MAX,
    ensures
        r.0 == slice_start(len as int, start),
        r.1 == slice_end(len as int, start, end),
        r.0 <= r.1 <= len,
{
    let mut s: i64 = match start {
        Some(v) => v,
        None => 0,
    };
    let mut e: i64 = match end {
        Some(v) => v,
        None => len,
    };
    if s < 0 {
        s = s + len;
    }
    if e < 0 {
        e = e + len;
    }
    if s < 0 {
        s = 0;
    }
    if e < 0 {
        e = 0;
    }
    if s > len {
        s = len;
    }
    if e > len {
        e = len;
    }
    if e < s {
        e = s;
    }
    (s as usize, e as usize)
}

/// The bounds that `normalize_slice_range` gives, for a length of any size.
pub fn slice_bounds(len: usize, start: Option<i64>, end: Option<i64>) -> (r: (usize, usize))
    ensures
        r.0 == slice_start(len as int, start),
        r.1 == slice_end(len as int, start, end),
        r.0 <= r.1 <= len,
{
    let n = len as i128;
    let mut s: i128 = match start {
        Some(v) => v as i128,
        None => 0,
    };
    let mut e: i128 = match end {
        Some(v) => v as i128,
        None => n,
    };
    if s < 0 {
        s = s + n;
    }
    if e < 0 {
        e = e + n;
    }
    if s < 0 {
        s = 0;
    }
    if e < 0 {
        e = 0;
    }
    if s > n {
        s = n;
    }
    if e > n {
        e = n;
    }
    if e < s {
        e = s;
    }
    (s as usize, e as usize)
}

/// Python slicing `v[start:end]`.
pub trait PySlice {
    type Output;

    /// Number of elements the slice bounds are resolved against.
    spec fn slice_len(&self) -> nat;

    /// Whether `out` is what `self[start:end]` gives.
    spec fn is_slice(&self, start: Option<i64>, end: Option<i64>, out: &Self::Output) -> bool;

    fn py_slice(&self, start: Option<i64>, end: Option<i64>) -> (r: Self::Output)
        ensures
            self.is_slice(start, end, &r),
    ;
}

impl<T: Clone> PySlice for Vec<T> {
    type Output = Vec<T>;

    open spec fn slice_len(&self) -> nat {
        self@.len()
    }

    /// The elements in the resolved range, each a clone of the element it copies.
    open spec fn is_slice(&self, start: Option<i64>, end: Option<i64>, out: &Vec<T>) -> bool {
        let s = slice_start(self@.len() as int, start);
        let e = slice_end(self@.len() as int, start, end);
        &&& out@.len() == e - s
        &&& forall|i: int| 0 <= i < e - s ==> cloned::<T>(self@[s + i], #[trigger] out@[i])
    }

    fn py_slice(&self, start: Option<i64>, end: Option<i64>) -> (r: Vec<T>) {
        let (s, e) = slice_bounds(self.len(), start, end);
        let mut out = Vec::<T>::new();
        let mut i: usize = s;
        while i < e
            invariant
                s <= i <= e <= self@.len(),
                s == slice_start(self@.len() as int, start),
                e == slice_end(self@.len() as int, start, end),
                out@.len() == i - s,
                forall|k: int| 0 <= k < i - s ==> cloned::<T>(self@[s + k], #[trigger] out@[k]),
            decreases e - i,
        {
            out.push(self[i].clone());
            i = i + 1;
        }
        out
    }
}

impl PySlice for String {
    type Output = String;

    open spec fn slice_len(&self) -> nat {
        self@.len()
    }

    /// The code points in the resolved range.
    open spec fn is_slice(&self, start: Option<i64>, end: Option<i64>, out: &String) -> bool {
        out@ == slice_of(self@, start, end)
    }

    fn py_slice(&self, start: Option<i64>, end: Option<i64>) -> (r: String) {
        py_slice_str(self.as_str(), start, end)
    }
}

/// Python's `value[start:end]`.
pub fn py_slice<T: PySlice>(value: &T, start: Option<i64>, end: Option<i64>) -> (r: T::Output)
    ensures
        value.is_slice(start, end, &r),
{
    value.py_slice(start, end)
}

/// A slice is never longer than what it was taken from.
pub proof fn lemma_slice_bounded<T>(xs: Seq<T>, start: Option<i64>, end: Option<i64>)
    ensures
        slice_of(xs, start, end).len() <= xs.len(),
{
}

/// Slicing from 0 to the full length gives back the whole sequence (for any length an
/// `i64` bound can name).
pub proof fn lemma_slice_full<T>(xs: Seq<T>)
    requires
        xs.len() <= i64::MAX,
    ensures
        slice_of(xs, Some(0i64), Some(xs.len() as i64)) == xs,
{
    assert(slice_of(xs, Some(0i64), Some(xs.len() as i64)) =~= xs);
}

/// Slicing a slice again from 0 to its clamped width changes nothing: with `s` and `e`
/// the clamped bounds of `xs[start:end]`, `xs[start:end][0:e-s] == xs[start:end]`.
pub proof fn lemma_slice_of_slice<T>(xs: Seq<T>, start: Option<i64>, end: Option<i64>)
    requires
        xs.len() <= i64::MAX,
    ensures
        ({
            let n = xs.len() as int;
            let width = slice_end(n, start, end) - slice_start(n, start);
            slice_of(slice_of(xs, start, end), Some(0i64), Some(width as i64)) == slice_of(
                xs,
                start,
                end,
            )
        }),
{
    let t = slice_of(xs, start, end);
    assert(slice_of(t, Some(0i64), Some(t.len() as i64)) =~= t);
}

} // verus!
