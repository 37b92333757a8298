use vstd::arithmetic::div_mod::{lemma_div_denominator, lemma_div_is_ordered, lemma_div_multiples_vanish};
use vstd::arithmetic::power2::{lemma_pow2_adds, lemma_pow2_pos, lemma_pow2_strictly_increases, pow2};
use vstd::bits::{lemma_u64_shl_is_mul, lemma_u64_shr_is_div};
use vstd::prelude::*;

use std::collections::BTreeMap;

use crate::numtext::{decimal, int_to_string, parse_i64, parse_i64_text};
use crate::types::{
    PyRuntimeTypeId, PYTRA_TID_BOOL, PYTRA_TID_DICT, PYTRA_TID_FLOAT, PYTRA_TID_INT, PYTRA_TID_LIST,
    PYTRA_TID_NONE, PYTRA_TID_SET, PYTRA_TID_STR,
};

verus! {

/// A Python value of any of the eight runtime kinds. A float is held as its IEEE-754
/// binary64 bit pattern, so every double, infinities and NaNs included, has a value.
#[derive(Debug)]
pub enum PyAny {
    Int(i64),
    Float(u64),
    Bool(bool),
    Str(String),
    Dict(BTreeMap<String, PyAny>),
    List(Vec<PyAny>),
    SetOf(Vec<PyAny>),
    NoneVal,
}

impl Default for PyAny {
    fn default() -> (r: PyAny)
        ensures
            r is NoneVal,
    {
        PyAny::NoneVal
    }
}

impl From<i64> for PyAny {
    fn from(v: i64) -> (r: PyAny) {
        PyAny::Int(v)
    }
}

impl vstd::std_specs::convert::FromSpecImpl<i64> for PyAny {
    open spec fn obeys_from_spec() -> bool {
        true
    }

    open spec fn from_spec(v: i64) -> PyAny {
        PyAny::Int(v)
    }
}

impl From<i32> for PyAny {
    fn from(v: i32) -> (r: PyAny) {
        PyAny::Int(v as i64)
    }
}

impl vstd::std_specs::convert::FromSpecImpl<i32> for PyAny {
    open spec fn obeys_from_spec() -> bool {
        true
    }

    open spec fn from_spec(v: i32) -> PyAny {
        PyAny::Int(v as i64)
    }
}

impl From<i16> for PyAny {
    fn from(v: i16) -> (r: PyAny) {
        PyAny::Int(v as i64)
    }
}

impl vstd::std_specs::convert::FromSpecImpl<i16> for PyAny {
    open spec fn obeys_from_spec() -> bool {
        true
    }

    open spec fn from_spec(v: i16) -> PyAny {
        PyAny::Int(v as i64)
    }
}

impl From<i8> for PyAny {
    fn from(v: i8) -> (r: PyAny) {
        PyAny::Int(v as i64)
    }
}

impl vstd::std_specs::convert::FromSpecImpl<i8> for PyAny {
    open spec fn obeys_from_spec() -> bool {
        true
    }

    open spec fn from_spec(v: i8) -> PyAny {
        PyAny::Int(v as i64)
    }
}

impl From<u32> for PyAny {
    fn from(v: u32) -> (r: PyAny) {
        PyAny::Int(v as i64)
    }
}

impl vstd::std_specs::convert::FromSpecImpl<u32> for PyAny {
    open spec fn obeys_from_spec() -> bool {
        true
    }

    open spec fn from_spec(v: u32) -> PyAny {
        PyAny::Int(v as i64)
    }
}

impl From<u16> for PyAny {
    fn from(v: u16) -> (r: PyAny) {
        PyAny::Int(v as i64)
    }
}

impl vstd::std_specs::convert::FromSpecImpl<u16> for PyAny {
    open spec fn obeys_from_spec() -> bool {
        true
    }

    open spec fn from_spec(v: u16) -> PyAny {
        PyAny::Int(v as i64)
    }
}

impl From<u8> for PyAny {
    fn from(v: u8) -> (r: PyAny) {
        PyAny::Int(v as i64)
    }
}

impl vstd::std_specs::convert::FromSpecImpl<u8> for PyAny {
    open spec fn obeys_from_spec() -> bool {
        true
    }

    open spec fn from_spec(v: u8) -> PyAny {
        PyAny::Int(v as i64)
    }
}

impl From<bool> for PyAny {
    fn from(v: bool) -> (r: PyAny) {
        PyAny::Bool(v)
    }
}

impl vstd::std_specs::convert::FromSpecImpl<bool> for PyAny {
    open spec fn obeys_from_spec() -> bool {
        true
    }

    open spec fn from_spec(v: bool) -> PyAny {
        PyAny::Bool(v)
    }
}

impl From<String> for PyAny {
    fn from(v: String) -> (r: PyAny) {
        PyAny::Str(v)
    }
}

impl vstd::std_specs::convert::FromSpecImpl<String> for PyAny {
    open spec fn obeys_from_spec() -> bool {
        true
    }

    open spec fn from_spec(v: String) -> PyAny {
        PyAny::Str(v)
    }
}

/// The mapping held by a `Dict`; every other value gives an empty mapping.
pub fn py_any_as_dict(v: PyAny) -> (r: BTreeMap<String, PyAny>)
    ensures
        v is Dict ==> r@ == v->Dict_0@,
        !(v is Dict) ==> r@ == Map::<String, PyAny>::empty(),
{
    match v {
        PyAny::Dict(d) => d,
        _ => BTreeMap::new(),
    }
}

/// 2^52, the weight of the implicit leading bit of a binary64 significand.
pub const F64_HIDDEN_BIT: u64 = 0x10_0000_0000_0000;

/// The biased exponent field of a binary64 bit pattern.
pub open spec fn f64_exponent(bits: u64) -> int {
    (bits as int / F64_HIDDEN_BIT as int) % 2048
}

/// The fraction field of a binary64 bit pattern.
pub open spec fn f64_fraction(bits: u64) -> int {
    bits as int % F64_HIDDEN_BIT as int
}

/// The sign bit of a binary64 bit pattern.
pub open spec fn f64_negative(bits: u64) -> bool {
    bits >= 0x8000_0000_0000_0000
}

/// `x` clamped into the range of `i64`.
pub open spec fn clamp_i64(x: int) -> int {
    if x < i64::MIN {
        i64::MIN as int
    } else if x > i64::MAX {
        i64::MAX as int
    } else {
        x
    }
}

/// A binary64 value truncated toward zero to `i64`, saturating at the ends of the
/// range, with NaN giving 0 (the rule of Rust's `as` conversion). A finite value of
/// exponent field `e >= 1023` is `(2^52 + fraction) * 2^(e - 1023) / 2^52`; one below
/// that is smaller than 1 in magnitude.
pub open spec fn f64_trunc(bits: u64) -> int {
    let e = f64_exponent(bits);
    let frac = f64_fraction(bits);
    if e == 2047 {
        if frac != 0 {
            0
        } else if f64_negative(bits) {
            i64::MIN as int
        } else {
            i64::MAX as int
        }
    } else if e < 1023 {
        0
    } else {
        let mag = (F64_HIDDEN_BIT + frac) * pow2((e - 1023) as nat) / F64_HIDDEN_BIT as int;
        clamp_i64(
            if f64_negative(bits) {
                -mag
            } else {
                mag
            },
        )
    }
}

/// Whether a binary64 value is nonzero: everything but +0.0 and -0.0, NaN included.
pub open spec fn f64_nonzero(bits: u64) -> bool {
    bits as int % 0x8000_0000_0000_0000 != 0
}

proof fn lemma_pow2_facts()
    ensures
        pow2(52) == F64_HIDDEN_BIT,
        pow2(63) == 0x8000_0000_0000_0000,
{
    vstd::arithmetic::power2::lemma2_to64();
    vstd::arithmetic::power2::lemma2_to64_rest();
}

/// The position of the highest set bit of `m >= 1`.
pub open spec fn top_bit(m: nat) -> nat
    decreases m,
{
    if m < 2 {
        0
    } else {
        1 + top_bit(m / 2)
    }
}

/// The binary64 bit pattern of an integer `n` with `0 < |n| < 2^53`, which binary64
/// holds exactly: sign, exponent `top_bit(|n|) + 1023`, and the bits of `|n|` below its
/// top bit as the fraction.
pub open spec fn exact_f64_bits(n: int) -> int {
    let m = if n < 0 {
        -n
    } else {
        n
    };
    let e = top_bit(m as nat);
    (if n < 0 {
        0x8000_0000_0000_0000int
    } else {
        0
    }) + (e + 1023) * F64_HIDDEN_BIT + (m * pow2((52 - e) as nat) - F64_HIDDEN_BIT)
}

proof fn lemma_top_bit(m: nat)
    requires
        m >= 1,
    ensures
        pow2(top_bit(m)) <= m < pow2(top_bit(m) + 1),
    decreases m,
{
    vstd::arithmetic::power2::lemma2_to64();
    if m >= 2 {
        lemma_top_bit(m / 2);
        let t = top_bit(m / 2);
        vstd::arithmetic::power2::lemma_pow2_unfold(t + 1);
        vstd::arithmetic::power2::lemma_pow2_unfold(t + 2);
    }
}

/// Where binary64 holds an integer exactly (`0 < |n| < 2^53`), truncating its float
/// encoding gives the integer back.
pub proof fn lemma_exact_float_truncates_back(n: int)
    requires
        0 < (if n < 0 {
            -n
        } else {
            n
        }) < 0x20_0000_0000_0000,
    ensures
        0 <= exact_f64_bits(n) <= u64::MAX,
        f64_trunc(exact_f64_bits(n) as u64) == n,
{
    lemma_pow2_facts();
    let m: int = if n < 0 {
        -n
    } else {
        n
    };
    let e = top_bit(m as nat);
    lemma_top_bit(m as nat);
    vstd::arithmetic::power2::lemma2_to64_rest();
    if e > 53 {
        lemma_pow2_strictly_increases(53, e);
    }
    assert(e <= 52);
    let sh = (52 - e) as nat;
    lemma_pow2_adds(e, sh);
    lemma_pow2_adds(e + 1, sh);
    lemma_pow2_pos(sh);
    lemma_pow2_pos(e);
    let sig = m * pow2(sh);
    assert(F64_HIDDEN_BIT <= sig < 2 * F64_HIDDEN_BIT) by (nonlinear_arith)
        requires
            pow2(e) <= m < pow2(e + 1),
            pow2(e) * pow2(sh) == F64_HIDDEN_BIT,
            pow2(e + 1) * pow2(sh) == 2 * F64_HIDDEN_BIT,
            pow2(sh) > 0,
            sig == m * pow2(sh),
    {
    }
    let frac = sig - F64_HIDDEN_BIT;
    let sign: int = if n < 0 {
        0x8000_0000_0000_0000
    } else {
        0
    };
    let bits = sign + (e + 1023) * F64_HIDDEN_BIT + frac;
    assert(bits == exact_f64_bits(n));
    assert(0 <= bits <= u64::MAX);
    let b = bits as u64;
    let hi = sign / F64_HIDDEN_BIT as int + e + 1023;
    vstd::arithmetic::div_mod::lemma_fundamental_div_mod_converse(bits, F64_HIDDEN_BIT as int, hi, frac);
    vstd::arithmetic::div_mod::lemma_fundamental_div_mod_converse(
        hi,
        2048,
        sign / F64_HIDDEN_BIT as int / 2048,
        (e + 1023) as int,
    );
    assert(f64_exponent(b) == e + 1023);
    assert(f64_fraction(b) == frac);
    assert(f64_negative(b) == (n < 0));
    assert(sig * pow2(e) == F64_HIDDEN_BIT * m) by (nonlinear_arith)
        requires
            sig == m * pow2(sh),
            pow2(e) * pow2(sh) == F64_HIDDEN_BIT,
    ;
    lemma_div_multiples_vanish(m, F64_HIDDEN_BIT as int);
    assert((F64_HIDDEN_BIT + frac) * pow2((e + 1023 - 1023) as nat) / F64_HIDDEN_BIT as int == m);
}

/// Truncates the binary64 value with bit pattern `bits` toward zero, saturating.
pub fn f64_bits_to_i64(bits: u64) -> (r: i64)
    ensures
        r == f64_trunc(bits),
{
    proof {
        lemma_pow2_facts();
    }
    let e = (bits / F64_HIDDEN_BIT) % 2048;
    let frac = bits % F64_HIDDEN_BIT;
    let neg = bits >= 0x8000_0000_0000_0000;
    if e == 2047 {
        if frac != 0 {
            return 0;
        }
        return if neg {
            i64::MIN
        } else {
            i64::MAX
        };
    }
    if e < 1023 {
        return 0;
    }
    let sig = F64_HIDDEN_BIT + frac;
    let ex = e - 1023;
    let ghost mag = sig * pow2(ex as nat) / F64_HIDDEN_BIT as int;
    proof {
        lemma_pow2_pos(ex as nat);
    }
    if ex >= 63 {
        proof {
            assert(F64_HIDDEN_BIT * pow2(ex as nat) <= sig * pow2(ex as nat)) by (nonlinear_arith)
                requires
                    F64_HIDDEN_BIT <= sig,
            ;
            lemma_div_is_ordered(
                F64_HIDDEN_BIT * pow2(ex as nat),
                sig * pow2(ex as nat),
                F64_HIDDEN_BIT as int,
            );
            lemma_div_multiples_vanish(pow2(ex as nat) as int, F64_HIDDEN_BIT as int);
            if ex > 63 {
                lemma_pow2_strictly_increases(63, ex as nat);
            }
            assert(mag >= 0x8000_0000_0000_0000);
        }
        return if neg {
            i64::MIN
        } else {
            i64::MAX
        };
    }
    let m: u64 = if ex < 52 {
        let sh = 52 - ex;
        proof {
            lemma_u64_shr_is_div(sig, sh);
            lemma_pow2_pos(sh as nat);
            lemma_pow2_adds(ex as nat, sh as nat);
            lemma_div_denominator(sig * pow2(ex as nat), pow2(ex as nat) as int, pow2(sh as nat) as int);
            assert(sig * pow2(ex as nat) == pow2(ex as nat) * sig) by (nonlinear_arith);
            lemma_div_multiples_vanish(sig as int, pow2(ex as nat) as int);
            lemma_div_is_ordered(0, sig as int, pow2(sh as nat) as int);
            assert(sig as int / pow2(sh as nat) as int <= sig) by {
                vstd::arithmetic::div_mod::lemma_div_is_ordered_by_denominator(sig as int, 1, pow2(sh as nat) as int);
            }
        }
        sig >> sh
    } else {
        let sh = ex - 52;
        proof {
            lemma_pow2_adds(52, sh as nat);
            lemma_pow2_pos(sh as nat);
            if sh < 10 {
                lemma_pow2_strictly_increases(sh as nat, 10);
            }
            vstd::arithmetic::power2::lemma2_to64();
            assert(sig * pow2(sh as nat) < 0x20_0000_0000_0000 * 0x400) by (nonlinear_arith)
                requires
                    sig < 0x20_0000_0000_0000,
                    0 < pow2(sh as nat) <= 0x400,
            ;
            lemma_u64_shl_is_mul(sig, sh);
            assert(sig * pow2(ex as nat) == F64_HIDDEN_BIT * (sig * pow2(sh as nat)))
                by (nonlinear_arith)
                requires
                    pow2(ex as nat) == pow2(52) * pow2(sh as nat),
                    pow2(52) == F64_HIDDEN_BIT,
            ;
            lemma_div_multiples_vanish(sig * pow2(sh as nat), F64_HIDDEN_BIT as int);
        }
        sig << sh
    };
    assert(m == mag);
    assert(m < 0x8000_0000_0000_0000);
    if neg {
        0 - (m as i64)
    } else {
        m as i64
    }
}

/// The integer that `to_i64` gives for a string: its value when it reads as an `i64`,
/// else 0.
pub open spec fn str_to_int(s: Seq<char>) -> int {
    match parse_i64(s) {
        Some(v) => v,
        None => 0,
    }
}

/// `to_i64` of a dynamic value.
pub open spec fn any_to_int(v: &PyAny) -> int {
    match v {
        PyAny::Int(n) => *n as int,
        PyAny::Float(b) => f64_trunc(*b),
        PyAny::Bool(b) => if *b {
            1
        } else {
            0
        },
        PyAny::Str(s) => str_to_int(s@),
        _ => 0,
    }
}

/// `to_bool` of a dynamic value: numbers are true when nonzero, strings and containers
/// when non-empty, `None` is false.
pub open spec fn any_truthy(v: &PyAny) -> bool {
    match v {
        PyAny::Int(n) => *n != 0,
        PyAny::Float(b) => f64_nonzero(*b),
        PyAny::Bool(b) => *b,
        PyAny::Str(s) => s@.len() > 0,
        PyAny::Dict(d) => !d@.is_empty(),
        PyAny::List(xs) => xs@.len() > 0,
        PyAny::SetOf(xs) => xs@.len() > 0,
        PyAny::NoneVal => false,
    }
}

/// Coercion to `i64`.
pub trait PyAnyToI64Arg {
    spec fn int_value(&self) -> int;

    fn py_any_to_i64_arg(&self) -> (r: i64)
        ensures
            r == self.int_value(),
    ;
}

impl PyAnyToI64Arg for PyAny {
    open spec fn int_value(&self) -> int {
        any_to_int(self)
    }

    fn py_any_to_i64_arg(&self) -> (r: i64) {
        match self {
            PyAny::Int(n) => *n,
            PyAny::Float(b) => f64_bits_to_i64(*b),
            PyAny::Bool(b) => if *b {
                1
            } else {
                0
            },
            PyAny::Str(s) => match parse_i64_text(s.as_str()) {
                Some(v) => v,
                None => 0,
            },
            _ => 0,
        }
    }
}

impl PyAnyToI64Arg for i64 {
    open spec fn int_value(&self) -> int {
        *self as int
    }

    fn py_any_to_i64_arg(&self) -> (r: i64) {
        *self
    }
}

impl PyAnyToI64Arg for i32 {
    open spec fn int_value(&self) -> int {
        *self as int
    }

    fn py_any_to_i64_arg(&self) -> (r: i64) {
        *self as i64
    }
}

impl PyAnyToI64Arg for bool {
    open spec fn int_value(&self) -> int {
        if *self {
            1
        } else {
            0
        }
    }

    fn py_any_to_i64_arg(&self) -> (r: i64) {
        if *self {
            1
        } else {
            0
        }
    }
}

impl PyAnyToI64Arg for String {
    open spec fn int_value(&self) -> int {
        str_to_int(self@)
    }

    fn py_any_to_i64_arg(&self) -> (r: i64) {
        match parse_i64_text(self.as_str()) {
            Some(v) => v,
            None => 0,
        }
    }
}

impl PyAnyToI64Arg for str {
    open spec fn int_value(&self) -> int {
        str_to_int(self@)
    }

    fn py_any_to_i64_arg(&self) -> (r: i64) {
        match parse_i64_text(self) {
            Some(v) => v,
            None => 0,
        }
    }
}

/// `to_i64`: Python's `int(v)` with malformed text and containers giving 0.
pub fn py_any_to_i64<T: PyAnyToI64Arg + ?Sized>(v: &T) -> (r: i64)
    ensures
        r == v.int_value(),
{
    v.py_any_to_i64_arg()
}

/// Coercion to `bool`.
pub trait PyAnyToBoolArg {
    spec fn truth(&self) -> bool;

    fn py_any_to_bool_arg(&self) -> (r: bool)
        ensures
            r == self.truth(),
    ;
}

impl PyAnyToBoolArg for PyAny {
    open spec fn truth(&self) -> bool {
        any_truthy(self)
    }

    fn py_any_to_bool_arg(&self) -> (r: bool) {
        match self {
            PyAny::Int(n) => *n != 0,
            PyAny::Float(b) => *b % 0x8000_0000_0000_0000 != 0,
            PyAny::Bool(b) => *b,
            PyAny::Str(s) => !s.as_str().is_empty(),
            PyAny::Dict(d) => !d.is_empty(),
            PyAny::List(xs) => xs.len() != 0,
            PyAny::SetOf(xs) => xs.len() != 0,
            PyAny::NoneVal => false,
        }
    }
}

impl PyAnyToBoolArg for bool {
    open spec fn truth(&self) -> bool {
        *self
    }

    fn py_any_to_bool_arg(&self) -> (r: bool) {
        *self
    }
}

impl PyAnyToBoolArg for i64 {
    open spec fn truth(&self) -> bool {
        *self != 0
    }

    fn py_any_to_bool_arg(&self) -> (r: bool) {
        *self != 0
    }
}

impl PyAnyToBoolArg for String {
    open spec fn truth(&self) -> bool {
        self@.len() > 0
    }

    fn py_any_to_bool_arg(&self) -> (r: bool) {
        !self.as_str().is_empty()
    }
}

impl PyAnyToBoolArg for str {
    open spec fn truth(&self) -> bool {
        self@.len() > 0
    }

    fn py_any_to_bool_arg(&self) -> (r: bool) {
        !self.is_empty()
    }
}

/// `to_bool`: Python truthiness.
pub fn py_any_to_bool<T: PyAnyToBoolArg + ?Sized>(v: &T) -> (r: bool)
    ensures
        r == v.truth(),
{
    v.py_any_to_bool_arg()
}

/// The text `true` or `false`.
pub open spec fn bool_text(b: bool) -> Seq<char> {
    if b {
        seq!['t', 'r', 'u', 'e']
    } else {
        seq!['f', 'a', 'l', 's', 'e']
    }
}

/// Coercion to text.
pub trait PyAnyToStringArg {
    spec fn text(&self) -> Seq<char>;

    fn py_any_to_string_arg(&self) -> (r: String)
        ensures
            r@ == self.text(),
    ;
}

impl PyAnyToStringArg for String {
    open spec fn text(&self) -> Seq<char> {
        self@
    }

    fn py_any_to_string_arg(&self) -> (r: String) {
        self.as_str().to_owned()
    }
}

impl PyAnyToStringArg for str {
    open spec fn text(&self) -> Seq<char> {
        self@
    }

    fn py_any_to_string_arg(&self) -> (r: String) {
        self.to_owned()
    }
}

impl PyAnyToStringArg for i64 {
    open spec fn text(&self) -> Seq<char> {
        decimal(*self as int)
    }

    fn py_any_to_string_arg(&self) -> (r: String) {
        int_to_string(*self)
    }
}

impl PyAnyToStringArg for bool {
    open spec fn text(&self) -> Seq<char> {
        bool_text(*self)
    }

    fn py_any_to_string_arg(&self) -> (r: String) {
        let t = "true";
        let f = "false";
        proof {
            reveal_strlit("true");
            reveal_strlit("false");
        }
        if *self {
            t.to_owned()
        } else {
            f.to_owned()
        }
    }
}

/// `to_string` of a statically typed value.
pub fn py_any_to_string<T: PyAnyToStringArg + ?Sized>(v: &T) -> (r: String)
    ensures
        r@ == v.text(),
{
    v.py_any_to_string_arg()
}

impl PyRuntimeTypeId for PyAny {
    open spec fn type_id_of(&self) -> i64 {
        match self {
            PyAny::Int(_) => PYTRA_TID_INT,
            PyAny::Float(_) => PYTRA_TID_FLOAT,
            PyAny::Bool(_) => PYTRA_TID_BOOL,
            PyAny::Str(_) => PYTRA_TID_STR,
            PyAny::List(_) => PYTRA_TID_LIST,
            PyAny::Dict(_) => PYTRA_TID_DICT,
            PyAny::SetOf(_) => PYTRA_TID_SET,
            PyAny::NoneVal => PYTRA_TID_NONE,
        }
    }

    fn py_runtime_type_id(&self) -> (r: i64) {
        match self {
            PyAny::Int(_) => PYTRA_TID_INT,
            PyAny::Float(_) => PYTRA_TID_FLOAT,
            PyAny::Bool(_) => PYTRA_TID_BOOL,
            PyAny::Str(_) => PYTRA_TID_STR,
            PyAny::List(_) => PYTRA_TID_LIST,
            PyAny::Dict(_) => PYTRA_TID_DICT,
            PyAny::SetOf(_) => PYTRA_TID_SET,
            PyAny::NoneVal => PYTRA_TID_NONE,
        }
    }
}

} // verus!
