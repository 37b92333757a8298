use vstd::prelude::*;

use crate::semantics::PyStringify;

verus! {

/// What `std::path::Path::parent` gives for a path text, as text.
pub uninterp spec fn path_parent(p: Seq<char>) -> Option<Seq<char>>;

/// What `std::path::Path::file_name` gives for a path text, as text.
pub uninterp spec fn path_file_name(p: Seq<char>) -> Option<Seq<char>>;

/// What `std::path::Path::file_stem` gives for a path text, as text.
pub uninterp spec fn path_file_stem(p: Seq<char>) -> Option<Seq<char>>;

/// What `std::path::Path::join` gives for a base path and a segment, as text.
pub uninterp spec fn path_join(base: Seq<char>, segment: Seq<char>) -> Seq<char>;

/// Relies on `std::path::Path::parent`: the path without its final component, `None`
/// for a root, a prefix or the empty path. A path made from `&str` converts back
/// without loss.
#[verifier::external_body]
fn std_path_parent(p: &str) -> (r: Option<String>)
    ensures
        match r {
            Some(s) => path_parent(p@) == Some(s@),
            None => path_parent(p@) is None,
        },
        p@.len() == 0 ==> r is None,
{
    match std::path::Path::new(p).parent() {
        Some(q) => Some(q.to_string_lossy().into_owned()),
        None => None,
    }
}

/// Relies on `std::path::Path::file_name`: the final component, `None` when the path
/// ends in `..` or has none.
#[verifier::external_body]
fn std_path_file_name(p: &str) -> (r: Option<String>)
    ensures
        match r {
            Some(s) => path_file_name(p@) == Some(s@),
            None => path_file_name(p@) is None,
        },
{
    match std::path::Path::new(p).file_name() {
        Some(q) => Some(q.to_string_lossy().into_owned()),
        None => None,
    }
}

/// Relies on `std::path::Path::file_stem`: the final component without its last
/// extension.
#[verifier::external_body]
fn std_path_file_stem(p: &str) -> (r: Option<String>)
    ensures
        match r {
            Some(s) => path_file_stem(p@) == Some(s@),
            None => path_file_stem(p@) is None,
        },
{
    match std::path::Path::new(p).file_stem() {
        Some(q) => Some(q.to_string_lossy().into_owned()),
        None => None,
    }
}

/// Relies on `std::path::Path::join`: `segment` appended to `base` as a new component.
#[verifier::external_body]
fn std_path_join(base: &str, segment: &str) -> (r: String)
    ensures
        r@ == path_join(base@, segment@),
{
    std::path::Path::new(base).join(segment).to_string_lossy().into_owned()
}

/// A filesystem path held as text, after Python's `pathlib.Path`.
#[derive(Debug)]
pub struct PyPath {
    value: String,
}

impl View for PyPath {
    type V = Seq<char>;

    closed spec fn view(&self) -> Seq<char> {
        self.value@
    }
}

/// The text of an optional path component, empty when there is none.
pub open spec fn or_empty(c: Option<Seq<char>>) -> Seq<char> {
    match c {
        Some(s) => s,
        None => Seq::empty(),
    }
}

impl PyPath {
    /// The path with text `value`.
    pub fn new(value: &str) -> (r: PyPath)
        ensures
            r@ == value@,
    {
        PyPath { value: value.to_owned() }
    }

    /// The path's text.
    pub fn as_text(&self) -> (r: &str)
        ensures
            r@ == self@,
    {
        self.value.as_str()
    }

    /// The directory that holds the path; the empty path when there is none.
    pub fn parent(&self) -> (r: PyPath)
        ensures
            r@ == or_empty(path_parent(self@)),
    {
        match std_path_parent(self.value.as_str()) {
            Some(p) => PyPath { value: p },
            None => PyPath { value: String::new() },
        }
    }

    /// The final component; empty when there is none.
    pub fn name(&self) -> (r: String)
        ensures
            r@ == or_empty(path_file_name(self@)),
    {
        match std_path_file_name(self.value.as_str()) {
            Some(s) => s,
            None => String::new(),
        }
    }

    /// The final component without its last extension; empty when there is none.
    pub fn stem(&self) -> (r: String)
        ensures
            r@ == or_empty(path_file_stem(self@)),
    {
        match std_path_file_stem(self.value.as_str()) {
            Some(s) => s,
            None => String::new(),
        }
    }

    /// The path with `segment` appended as a new component (Python's `path / segment`).
    pub fn join(&self, segment: &str) -> (r: PyPath)
        ensures
            r@ == path_join(self@, segment@),
    {
        PyPath { value: std_path_join(self.value.as_str(), segment) }
    }
}

impl PyStringify for PyPath {
    open spec fn shown(&self) -> Seq<char> {
        self@
    }

    fn py_stringify(&self) -> (r: String) {
        self.value.as_str().to_owned()
    }
}

} // verus!
