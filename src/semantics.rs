use vstd::prelude::*;
use vstd::std_specs::cmp::PartialEqSpec;
use vstd::std_specs::hash::obeys_key_model;

use std::collections::HashMap;
use std::collections::HashSet;
use std::hash::Hash;

use crate::numtext::{decimal, digits_of, digits_text, int_to_string};
use crate::text::str_len;

verus! {

/// Python truthiness.
pub trait PyBool {
    spec fn truthy(&self) -> bool;

    fn py_bool(&self) -> (r: bool)
        ensures
            r == self.truthy(),
    ;
}

impl PyBool for bool {
    open spec fn truthy(&self) -> bool {
        *self
    }

    fn py_bool(&self) -> (r: bool) {
        *self
    }
}

impl PyBool for i64 {
    open spec fn truthy(&self) -> bool {
        *self != 0
    }

    fn py_bool(&self) -> (r: bool) {
        *self != 0
    }
}

impl PyBool for i32 {
    open spec fn truthy(&self) -> bool {
        *self != 0
    }

    fn py_bool(&self) -> (r: bool) {
        *self != 0
    }
}

impl PyBool for i16 {
    open spec fn truthy(&self) -> bool {
        *self != 0
    }

    fn py_bool(&self) -> (r: bool) {
        *self != 0
    }
}

impl PyBool for i8 {
    open spec fn truthy(&self) -> bool {
        *self != 0
    }

    fn py_bool(&self) -> (r: bool) {
        *self != 0
    }
}

impl PyBool for u64 {
    open spec fn truthy(&self) -> bool {
        *self != 0
    }

    fn py_bool(&self) -> (r: bool) {
        *self != 0
    }
}

impl PyBool for u32 {
    open spec fn truthy(&self) -> bool {
        *self != 0
    }

    fn py_bool(&self) -> (r: bool) {
        *self != 0
    }
}

impl PyBool for u16 {
    open spec fn truthy(&self) -> bool {
        *self != 0
    }

    fn py_bool(&self) -> (r: bool) {
        *self != 0
    }
}

impl PyBool for u8 {
    open spec fn truthy(&self) -> bool {
        *self != 0
    }

    fn py_bool(&self) -> (r: bool) {
        *self != 0
    }
}

impl PyBool for String {
    open spec fn truthy(&self) -> bool {
        self@.len() > 0
    }

    fn py_bool(&self) -> (r: bool) {
        !self.as_str().is_empty()
    }
}

impl<T> PyBool for Vec<T> {
    open spec fn truthy(&self) -> bool {
        self@.len() > 0
    }

    fn py_bool(&self) -> (r: bool) {
        self.len() != 0
    }
}

impl<K, V> PyBool for HashMap<K, V> {
    open spec fn truthy(&self) -> bool {
        !self@.is_empty()
    }

    fn py_bool(&self) -> (r: bool) {
        !self.is_empty()
    }
}

impl<T> PyBool for HashSet<T> {
    open spec fn truthy(&self) -> bool {
        !self@.is_empty()
    }

    fn py_bool(&self) -> (r: bool) {
        !self.is_empty()
    }
}

/// Python's `bool(v)`.
pub fn py_bool<T: PyBool>(v: &T) -> (r: bool)
    ensures
        r == v.truthy(),
{
    v.py_bool()
}

/// Python's `len`.
pub trait PyLen {
    /// Whether the container's element type behaves as its model assumes (hashing and
    /// equality that agree).
    spec fn lawful() -> bool;

    spec fn size(&self) -> nat;

    fn py_len(&self) -> (r: usize)
        ensures
            Self::lawful() ==> r == self.size(),
    ;
}

impl<T> PyLen for Vec<T> {
    open spec fn lawful() -> bool {
        true
    }

    open spec fn size(&self) -> nat {
        self@.len()
    }

    fn py_len(&self) -> (r: usize) {
        self.len()
    }
}

impl<K, V> PyLen for HashMap<K, V> {
    open spec fn lawful() -> bool {
        obeys_key_model::<K>()
    }

    open spec fn size(&self) -> nat {
        self@.len()
    }

    fn py_len(&self) -> (r: usize) {
        self.len()
    }
}

impl<T> PyLen for HashSet<T> {
    open spec fn lawful() -> bool {
        obeys_key_model::<T>()
    }

    open spec fn size(&self) -> nat {
        self@.len()
    }

    fn py_len(&self) -> (r: usize) {
        self.len()
    }
}

impl PyLen for String {
    open spec fn lawful() -> bool {
        true
    }

    /// The number of code points.
    open spec fn size(&self) -> nat {
        self@.len()
    }

    fn py_len(&self) -> (r: usize) {
        str_len(self.as_str())
    }
}

/// Python's `len(v)`.
pub fn py_len<T: PyLen>(value: &T) -> (r: usize)
    ensures
        T::lawful() ==> r == value.size(),
{
    value.py_len()
}

/// Python's `in`.
pub trait PyContains<K> {
    /// Whether equality or hashing of the element type behaves as its model assumes.
    spec fn lawful() -> bool;

    spec fn holds(&self, key: &K) -> bool;

    fn py_contains(&self, key: &K) -> (r: bool)
        ensures
            Self::lawful() ==> r == self.holds(key),
    ;
}

impl<T: PartialEq> PyContains<T> for Vec<T> {
    open spec fn lawful() -> bool {
        T::obeys_eq_spec()
    }

    open spec fn holds(&self, key: &T) -> bool {
        exists|i: int| 0 <= i < self@.len() && #[trigger] self@[i].eq_spec(key)
    }

    fn py_contains(&self, key: &T) -> (r: bool) {
        let mut i: usize = 0;
        while i < self.len()
            invariant
                i <= self@.len(),
                T::obeys_eq_spec() ==> forall|k: int| 0 <= k < i ==> !#[trigger] self@[k].eq_spec(key),
            decreases self@.len() - i,
        {
            if self[i].eq(key) {
                return true;
            }
            i = i + 1;
        }
        false
    }
}

impl<T: Eq + Hash> PyContains<T> for HashSet<T> {
    open spec fn lawful() -> bool {
        obeys_key_model::<T>()
    }

    open spec fn holds(&self, key: &T) -> bool {
        self@.contains(*key)
    }

    fn py_contains(&self, key: &T) -> (r: bool) {
        self.contains(key)
    }
}

impl<K: Eq + Hash, V> PyContains<K> for HashMap<K, V> {
    open spec fn lawful() -> bool {
        obeys_key_model::<K>()
    }

    open spec fn holds(&self, key: &K) -> bool {
        self@.contains_key(*key)
    }

    fn py_contains(&self, key: &K) -> (r: bool) {
        self.contains_key(key)
    }
}

/// Python's `key in container`.
pub fn py_in<C: PyContains<K>, K>(container: &C, key: &K) -> (r: bool)
    ensures
        C::lawful() ==> r == container.holds(key),
{
    container.py_contains(key)
}

/// The text `True` or `False`, as Python prints booleans.
pub open spec fn py_bool_text(b: bool) -> Seq<char> {
    if b {
        seq!['T', 'r', 'u', 'e']
    } else {
        seq!['F', 'a', 'l', 's', 'e']
    }
}

/// How `print` shows a value.
pub trait PyStringify {
    spec fn shown(&self) -> Seq<char>;

    fn py_stringify(&self) -> (r: String)
        ensures
            r@ == self.shown(),
    ;
}

impl PyStringify for bool {
    open spec fn shown(&self) -> Seq<char> {
        py_bool_text(*self)
    }

    fn py_stringify(&self) -> (r: String) {
        let t = "True";
        let f = "False";
        proof {
            reveal_strlit("True");
            reveal_strlit("False");
        }
        if *self {
            t.to_owned()
        } else {
            f.to_owned()
        }
    }
}

impl PyStringify for i64 {
    open spec fn shown(&self) -> Seq<char> {
        decimal(*self as int)
    }

    fn py_stringify(&self) -> (r: String) {
        int_to_string(*self)
    }
}

impl PyStringify for i32 {
    open spec fn shown(&self) -> Seq<char> {
        decimal(*self as int)
    }

    fn py_stringify(&self) -> (r: String) {
        int_to_string(*self as i64)
    }
}

impl PyStringify for i16 {
    open spec fn shown(&self) -> Seq<char> {
        decimal(*self as int)
    }

    fn py_stringify(&self) -> (r: String) {
        int_to_string(*self as i64)
    }
}

impl PyStringify for i8 {
    open spec fn shown(&self) -> Seq<char> {
        decimal(*self as int)
    }

    fn py_stringify(&self) -> (r: String) {
        int_to_string(*self as i64)
    }
}

impl PyStringify for u64 {
    open spec fn shown(&self) -> Seq<char> {
        digits_of(*self as nat)
    }

    fn py_stringify(&self) -> (r: String) {
        digits_text(*self)
    }
}

impl PyStringify for u32 {
    open spec fn shown(&self) -> Seq<char> {
        digits_of(*self as nat)
    }

    fn py_stringify(&self) -> (r: String) {
        digits_text(*self as u64)
    }
}

impl PyStringify for u16 {
    open spec fn shown(&self) -> Seq<char> {
        digits_of(*self as nat)
    }

    fn py_stringify(&self) -> (r: String) {
        digits_text(*self as u64)
    }
}

impl PyStringify for u8 {
    open spec fn shown(&self) -> Seq<char> {
        digits_of(*self as nat)
    }

    fn py_stringify(&self) -> (r: String) {
        digits_text(*self as u64)
    }
}

impl PyStringify for String {
    open spec fn shown(&self) -> Seq<char> {
        self@
    }

    fn py_stringify(&self) -> (r: String) {
        self.as_str().to_owned()
    }
}

impl<'a> PyStringify for &'a str {
    open spec fn shown(&self) -> Seq<char> {
        (*self)@
    }

    fn py_stringify(&self) -> (r: String) {
        (*self).to_owned()
    }
}

} // verus!
