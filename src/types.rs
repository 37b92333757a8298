use vstd::prelude::*;

use std::collections::BTreeMap;
use std::collections::BTreeSet;

verus! {

broadcast use vstd::laws_cmp::group_laws_cmp;

pub const PYTRA_TID_NONE: i64 = 0;

pub const PYTRA_TID_BOOL: i64 = 1;

pub const PYTRA_TID_INT: i64 = 2;

pub const PYTRA_TID_FLOAT: i64 = 3;

pub const PYTRA_TID_STR: i64 = 4;

pub const PYTRA_TID_LIST: i64 = 5;

pub const PYTRA_TID_DICT: i64 = 6;

pub const PYTRA_TID_SET: i64 = 7;

pub const PYTRA_TID_OBJECT: i64 = 8;

/// Where a type stands in the linearised hierarchy: its own position `order`, and the
/// inclusive interval `[min, max]` of positions that its subtypes occupy.
#[derive(Clone, Copy, Debug, PartialEq, Eq, Structural)]
pub struct PyTypeInfo {
    pub order: i64,
    pub min: i64,
    pub max: i64,
}

/// The record of a built-in type: position and interval are the id itself.
pub open spec fn builtin_info(id: i64) -> PyTypeInfo {
    PyTypeInfo { order: id, min: id, max: id }
}

/// The registry as it starts: the nine built-in ids `0..=8`.
pub open spec fn builtin_registry() -> Map<i64, PyTypeInfo> {
    Map::new(|id: i64| PYTRA_TID_NONE <= id <= PYTRA_TID_OBJECT, |id: i64| builtin_info(id))
}

/// `actual` is a subtype of `expected` when both are registered and the position of
/// `actual` lies in the interval of `expected`.
pub open spec fn is_subtype(m: Map<i64, PyTypeInfo>, actual: i64, expected: i64) -> bool {
    &&& m.contains_key(actual)
    &&& m.contains_key(expected)
    &&& m[expected].min <= m[actual].order <= m[expected].max
}

/// Type ids with their records. Registration inserts or replaces; nothing is removed.
pub struct TypeRegistry {
    infos: BTreeMap<i64, PyTypeInfo>,
}

impl View for TypeRegistry {
    type V = Map<i64, PyTypeInfo>;

    closed spec fn view(&self) -> Map<i64, PyTypeInfo> {
        self.infos@
    }
}

impl TypeRegistry {
    /// A registry that holds the nine built-in ids.
    pub fn new() -> (r: TypeRegistry)
        ensures
            r@ == builtin_registry(),
    {
        let mut infos = BTreeMap::<i64, PyTypeInfo>::new();
        let mut id: i64 = PYTRA_TID_NONE;
        while id <= PYTRA_TID_OBJECT
            invariant
                PYTRA_TID_NONE <= id <= PYTRA_TID_OBJECT + 1,
                infos@ == Map::new(
                    |k: i64| PYTRA_TID_NONE <= k < id,
                    |k: i64| builtin_info(k),
                ),
            decreases PYTRA_TID_OBJECT + 1 - id,
        {
            infos.insert(id, PyTypeInfo { order: id, min: id, max: id });
            assert(infos@ =~= Map::new(
                |k: i64| PYTRA_TID_NONE <= k < id + 1,
                |k: i64| builtin_info(k),
            ));
            id = id + 1;
        }
        assert(infos@ =~= builtin_registry());
        TypeRegistry { infos }
    }
}

/// Registers `type_id` with its position and interval, replacing an earlier record.
pub fn py_register_type_info(reg: &mut TypeRegistry, type_id: i64, order: i64, min: i64, max: i64)
    ensures
        final(reg)@ == old(reg)@.insert(type_id, PyTypeInfo { order, min, max }),
{
    reg.infos.insert(type_id, PyTypeInfo { order, min, max });
}

/// The record of `type_id`, if it is registered.
pub fn py_type_info(reg: &TypeRegistry, type_id: i64) -> (r: Option<PyTypeInfo>)
    ensures
        r == (if reg@.contains_key(type_id) {
            Some(reg@[type_id])
        } else {
            None
        }),
{
    match reg.infos.get(&type_id) {
        Some(info) => Some(*info),
        None => None,
    }
}

/// Interval subtype test; `false` when either id is unknown.
pub fn py_is_subtype(reg: &TypeRegistry, actual_type_id: i64, expected_type_id: i64) -> (r: bool)
    ensures
        r == is_subtype(reg@, actual_type_id, expected_type_id),
{
    let actual = match py_type_info(reg, actual_type_id) {
        Some(info) => info,
        None => return false,
    };
    let expected = match py_type_info(reg, expected_type_id) {
        Some(info) => info,
        None => return false,
    };
    expected.min <= actual.order && actual.order <= expected.max
}

/// Python's `issubclass` on type ids.
pub fn py_issubclass(reg: &TypeRegistry, actual_type_id: i64, expected_type_id: i64) -> (r: bool)
    ensures
        r == is_subtype(reg@, actual_type_id, expected_type_id),
{
    py_is_subtype(reg, actual_type_id, expected_type_id)
}

/// The type id of a runtime value.
pub trait PyRuntimeTypeId {
    spec fn type_id_of(&self) -> i64;

    fn py_runtime_type_id(&self) -> (r: i64)
        ensures
            r == self.type_id_of(),
    ;
}

impl PyRuntimeTypeId for bool {
    open spec fn type_id_of(&self) -> i64 {
        PYTRA_TID_BOOL
    }

    fn py_runtime_type_id(&self) -> (r: i64) {
        PYTRA_TID_BOOL
    }
}

impl PyRuntimeTypeId for i64 {
    open spec fn type_id_of(&self) -> i64 {
        PYTRA_TID_INT
    }

    fn py_runtime_type_id(&self) -> (r: i64) {
        PYTRA_TID_INT
    }
}

impl PyRuntimeTypeId for String {
    open spec fn type_id_of(&self) -> i64 {
        PYTRA_TID_STR
    }

    fn py_runtime_type_id(&self) -> (r: i64) {
        PYTRA_TID_STR
    }
}

impl<T> PyRuntimeTypeId for Vec<T> {
    open spec fn type_id_of(&self) -> i64 {
        PYTRA_TID_LIST
    }

    fn py_runtime_type_id(&self) -> (r: i64) {
        PYTRA_TID_LIST
    }
}

impl<K, V> PyRuntimeTypeId for BTreeMap<K, V> {
    open spec fn type_id_of(&self) -> i64 {
        PYTRA_TID_DICT
    }

    fn py_runtime_type_id(&self) -> (r: i64) {
        PYTRA_TID_DICT
    }
}

impl<T> PyRuntimeTypeId for BTreeSet<T> {
    open spec fn type_id_of(&self) -> i64 {
        PYTRA_TID_SET
    }

    fn py_runtime_type_id(&self) -> (r: i64) {
        PYTRA_TID_SET
    }
}

impl<T: PyRuntimeTypeId> PyRuntimeTypeId for Option<T> {
    open spec fn type_id_of(&self) -> i64 {
        match self {
            Some(v) => v.type_id_of(),
            None => PYTRA_TID_NONE,
        }
    }

    fn py_runtime_type_id(&self) -> (r: i64) {
        match self {
            Some(v) => v.py_runtime_type_id(),
            None => PYTRA_TID_NONE,
        }
    }
}

/// The type id of `value`.
pub fn py_runtime_type_id<T: PyRuntimeTypeId>(value: &T) -> (r: i64)
    ensures
        r == value.type_id_of(),
{
    value.py_runtime_type_id()
}

/// Python's `isinstance`: whether the runtime type of `value` is a subtype of `expected`.
pub fn py_isinstance<T: PyRuntimeTypeId>(reg: &TypeRegistry, value: &T, expected_type_id: i64) -> (r:
    bool)
    ensures
        r == is_subtype(reg@, value.type_id_of(), expected_type_id),
{
    py_is_subtype(reg, py_runtime_type_id(value), expected_type_id)
}

/// Whatever else is registered, a registered id `b` is a subtype of a registered id `a`
/// exactly when the position of `b` lies in the interval `[lo, hi]` of `a`.
pub proof fn lemma_subtype_by_interval(m: Map<i64, PyTypeInfo>, a: i64, b: i64)
    requires
        m.contains_key(a),
        m.contains_key(b),
    ensures
        m[a].min <= m[b].order <= m[a].max ==> is_subtype(m, b, a),
        !(m[a].min <= m[b].order <= m[a].max) ==> !is_subtype(m, b, a),
{
}

} // verus!
