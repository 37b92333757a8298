//! Small routines written against the runtime: arithmetic helpers, string builders and
//! tiny classes with mutable state.
use vstd::prelude::*;

use crate::numtext::{decimal, int_to_string};

verus! {

/// `a + b`.
pub fn add(a: i64, b: i64) -> (r: i64)
    requires
        i64::MIN <= a + b <= i64::MAX,
    ensures
        r == a + b,
{
    a + b
}

/// `(x - y) * 2`.
pub fn calc(x: i64, y: i64) -> (r: i64)
    requires
        i64::MIN <= (x - y) * 2 <= i64::MAX,
    ensures
        r == (x - y) * 2,
{
    (x - y) * 2
}

/// The absolute value of `n`.
pub fn abs_like(n: i64) -> (r: i64)
    requires
        n != i64::MIN,
    ensures
        r == if n < 0 {
            -n
        } else {
            n as int
        },
{
    if n < 0 {
        -n
    } else {
        n
    }
}

/// `n * n + 1`.
pub fn square_plus_one(n: i64) -> (r: i64)
    requires
        n * n + 1 <= i64::MAX,
    ensures
        r == n * n + 1,
{
    assert(0 <= n * n) by (nonlinear_arith);
    let result: i64 = n * n;
    result + 1
}

/// Whether `n` is at least 10.
pub fn is_large(n: i64) -> (r: bool)
    ensures
        r == (n >= 10),
{
    n >= 10
}

/// The greeting `Hello, <name>`.
pub fn greet(name: &String) -> (r: String)
    ensures
        r@ == "Hello, "@ + name@,
{
    let hello = "Hello, ";
    hello.to_owned().concat(name.as_str())
}

/// `x + 1`.
pub fn inc(x: i64) -> (r: i64)
    requires
        x < i64::MAX,
    ensures
        r == x + 1,
{
    x + 1
}

/// `x + 2`, as two increments.
pub fn twice(x: i64) -> (r: i64)
    requires
        x < i64::MAX - 1,
    ensures
        r == x + 2,
{
    inc(inc(x))
}

/// `n * 3`.
pub fn mul3(n: i64) -> (r: i64)
    requires
        i64::MIN <= n * 3 <= i64::MAX,
    ensures
        r == n * 3,
{
    n * 3
}

/// The negation of `flag`.
pub fn invert(flag: bool) -> (r: bool)
    ensures
        r == !flag,
{
    !flag
}

/// The Fibonacci numbers, with `fib(n) = n` for `n <= 1`.
pub open spec fn fib_spec(n: int) -> int
    decreases n,
{
    if n <= 1 {
        n
    } else {
        fib_spec(n - 1) + fib_spec(n - 2)
    }
}

proof fn lemma_fib_bounds(n: int)
    requires
        0 <= n,
    ensures
        0 <= fib_spec(n),
        fib_spec(n) <= fib_spec(n + 1),
    decreases n,
{
    if n >= 1 {
        assert(fib_spec(n + 1) == fib_spec(n) + fib_spec(n - 1));
    }
    if n >= 2 {
        lemma_fib_bounds(n - 1);
        lemma_fib_bounds(n - 2);
    } else if n == 1 {
        assert(fib_spec(0) == 0);
    }
}

/// The `n`-th Fibonacci number, by the doubly recursive definition.
pub fn fib(n: i64) -> (r: i64)
    requires
        fib_spec(n as int) <= i64::MAX,
    ensures
        r == fib_spec(n as int),
    decreases n,
{
    if n <= 1 {
        return n;
    }
    proof {
        lemma_fib_bounds(n - 2);
        lemma_fib_bounds(n - 1);
    }
    let a = fib(n - 1);
    let b = fib(n - 2);
    a + b
}

/// The message `[USER] <name>!`.
pub fn decorate(name: &String) -> (r: String)
    ensures
        r@ == "[USER] "@ + name@ + "!"@,
{
    let prefix = "[USER] ";
    let bang = "!";
    let message = prefix.to_owned().concat(name.as_str());
    message.concat(bang)
}

/// `a + b`, after swapping the two.
pub fn swap_sum_18(a: i64, b: i64) -> (r: i64)
    requires
        i64::MIN <= a + b <= i64::MAX,
    ensures
        r == a + b,
{
    let mut x: i64 = a;
    let mut y: i64 = b;
    let t = x;
    x = y;
    y = t;
    x + y
}

/// 20 when `flag` is set, else 10.
pub fn maybe_fail_19(flag: bool) -> (r: i64)
    ensures
        r == if flag {
            20int
        } else {
            10int
        },
{
    if flag {
        20
    } else {
        10
    }
}

/// The message `<name>:22:<count>`.
pub fn make_msg_22(name: &String, count: i64) -> (r: String)
    ensures
        r@ == name@ + ":22:"@ + decimal(count as int),
{
    let sep = ":22:";
    let head = name.as_str().to_owned().concat(sep);
    head.concat(int_to_string(count).as_str())
}

/// `a` when `flag` is set and `a > b`, else `b`.
pub fn pick_25(a: i64, b: i64, flag: bool) -> (r: i64)
    ensures
        r == if flag && a > b {
            a
        } else {
            b
        },
{
    if flag && a > b {
        a
    } else {
        b
    }
}

/// `0 + 1 + ... + (n - 1)`.
pub open spec fn range_sum(n: int) -> int
    decreases n,
{
    if n <= 0 {
        0
    } else {
        range_sum(n - 1) + (n - 1)
    }
}

proof fn lemma_range_sum_nonneg(n: int)
    ensures
        0 <= range_sum(n),
    decreases n,
{
    if n > 0 {
        lemma_range_sum_nonneg(n - 1);
    }
}

proof fn lemma_range_sum_grows(m: int, n: int)
    requires
        0 <= m <= n,
    ensures
        0 <= range_sum(m) <= range_sum(n),
    decreases n - m,
{
    lemma_range_sum_nonneg(m);
    if m < n {
        lemma_range_sum_grows(m, n - 1);
    }
}

/// The sum of `0..n`.
pub fn sum_range_29(n: i64) -> (r: i64)
    requires
        range_sum(n as int) <= i64::MAX,
    ensures
        r == range_sum(n as int),
{
    let mut total: i64 = 0;
    let mut i: i64 = 0;
    while i < n
        invariant
            0 <= i,
            n > 0 ==> i <= n,
            n <= 0 ==> i == 0,
            range_sum(n as int) <= i64::MAX,
            total == range_sum(i as int),
        decreases n - i,
    {
        proof {
            lemma_range_sum_grows((i + 1) as int, n as int);
            lemma_range_sum_grows(0, i as int);
        }
        total = total + i;
        i = i + 1;
    }
    total
}

/// Multiplies.
pub struct Multiplier {}

impl Multiplier {
    pub fn new() -> (r: Multiplier) {
        Multiplier {  }
    }

    /// `x * y`.
    pub fn mul(&mut self, x: i64, y: i64) -> (r: i64)
        requires
            i64::MIN <= x * y <= i64::MAX,
        ensures
            r == x * y,
    {
        x * y
    }
}

/// An animal that makes a generic sound.
pub struct Animal {}

impl Animal {
    pub fn new() -> (r: Animal) {
        Animal {  }
    }

    /// `generic`.
    pub fn sound(&mut self) -> (r: String)
        ensures
            r@ == "generic"@,
    {
        "generic".to_owned()
    }
}

/// A dog: its sound, then barks.
pub struct Dog {}

impl Dog {
    pub fn new() -> (r: Dog) {
        Dog {  }
    }

    /// The sound followed by `-bark`.
    pub fn bark(&mut self) -> (r: String)
        ensures
            r@ == "generic"@ + "-bark"@,
    {
        let s = self.sound();
        s.concat("-bark")
    }

    /// `generic`.
    pub fn sound(&mut self) -> (r: String)
        ensures
            r@ == "generic"@,
    {
        "generic".to_owned()
    }
}

/// A counter starting at 0.
pub struct Counter {
    pub value: i64,
}

impl Counter {
    pub fn new() -> (r: Counter)
        ensures
            r.value == 0,
    {
        Counter { value: 0 }
    }

    /// Adds one and returns the new value.
    pub fn inc(&mut self) -> (r: i64)
        requires
            old(self).value < i64::MAX,
        ensures
            final(self).value == old(self).value + 1,
            r == final(self).value,
    {
        self.value = self.value + 1;
        self.value
    }
}

/// A point with two integer coordinates.
pub struct Point {
    pub x: i64,
    pub y: i64,
}

impl Point {
    pub fn new(x: i64, y: i64) -> (r: Point)
        ensures
            r.x == x,
            r.y == y,
    {
        Point { x, y }
    }

    /// `x + y`.
    pub fn total(&mut self) -> (r: i64)
        requires
            i64::MIN <= old(self).x + old(self).y <= i64::MAX,
        ensures
            r == old(self).x + old(self).y,
            *final(self) == *old(self),
    {
        self.x + self.y
    }
}

/// A running total starting at 0.
pub struct Counter26 {
    pub total: i64,
}

impl Counter26 {
    pub fn new() -> (r: Counter26)
        ensures
            r.total == 0,
    {
        Counter26 { total: 0 }
    }

    /// Adds `x` and returns the new total.
    pub fn add(&mut self, x: i64) -> (r: i64)
        requires
            i64::MIN <= old(self).total + x <= i64::MAX,
        ensures
            final(self).total == old(self).total + x,
            r == final(self).total,
    {
        self.total = self.total + x;
        self.total
    }
}

/// A point whose `y` starts at 10.
pub struct Point99 {
    pub x: i64,
    pub y: i64,
}

impl Point99 {
    pub fn new(x: i64) -> (r: Point99)
        ensures
            r.x == x,
            r.y == 10,
    {
        Point99 { x, y: 10 }
    }

    /// `x + y`.
    pub fn total(&mut self) -> (r: i64)
        requires
            i64::MIN <= old(self).x + old(self).y <= i64::MAX,
        ensures
            r == old(self).x + old(self).y,
            *final(self) == *old(self),
    {
        self.x + self.y
    }
}

} // verus!
