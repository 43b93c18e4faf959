use vstd::prelude::*;
use vstd::string::*;
use vstd::arithmetic::div_mod::*;

verus! {

/// The character that writes the digit `d`.
pub open spec fn digit(d: int) -> char {
    if d == 0 {
        '0'
    } else if d == 1 {
        '1'
    } else if d == 2 {
        '2'
    } else if d == 3 {
        '3'
    } else if d == 4 {
        '4'
    } else if d == 5 {
        '5'
    } else if d == 6 {
        '6'
    } else if d == 7 {
        '7'
    } else if d == 8 {
        '8'
    } else {
        '9'
    }
}

/// The digits of `n` in base ten, the highest first, without leading zeros.
pub open spec fn digits(n: nat) -> Seq<char>
    decreases n,
{
    if n < 10 {
        seq![digit(n as int)]
    } else {
        digits(n / 10).push(digit((n % 10) as int))
    }
}

/// `v` in decimal notation: a minus sign if it is negative, then its digits.
pub open spec fn decimal(v: int) -> Seq<char> {
    if v < 0 {
        seq!['-'] + digits((-v) as nat)
    } else {
        digits(v as nat)
    }
}

/// The text of the digit `d`.
fn digit_str(d: u8) -> (s: &'static str)
    requires
        d < 10,
    ensures
        s@ == seq![digit(d as int)],
{
    proof {
        reveal_strlit("0");
        reveal_strlit("1");
        reveal_strlit("2");
        reveal_strlit("3");
        reveal_strlit("4");
        reveal_strlit("5");
        reveal_strlit("6");
        reveal_strlit("7");
        reveal_strlit("8");
        reveal_strlit("9");
    }
    let s = if d == 0 {
        "0"
    } else if d == 1 {
        "1"
    } else if d == 2 {
        "2"
    } else if d == 3 {
        "3"
    } else if d == 4 {
        "4"
    } else if d == 5 {
        "5"
    } else if d == 6 {
        "6"
    } else if d == 7 {
        "7"
    } else if d == 8 {
        "8"
    } else {
        "9"
    };
    assert(s@ =~= seq![digit(d as int)]);
    s
}

/// Appends the digits of `n` to `out`.
fn push_digits(out: &mut String, n: u128)
    ensures
        final(out)@ == old(out)@ + digits(n as nat),
    decreases n,
{
    if n >= 10 {
        push_digits(out, n / 10);
    }
    out.append(digit_str((n % 10) as u8));
    assert(out@ =~= old(out)@ + digits(n as nat));
}

/// Writes in decimal notation the number of size `magnitude` that is
/// negative if `negative` says so.
pub fn decimal_string(negative: bool, magnitude: u128) -> (s: String)
    requires
        negative ==> magnitude > 0,
    ensures
        s@ == decimal(if negative { -(magnitude as int) } else { magnitude as int }),
{
    let mut out = String::new();
    if negative {
        proof {
            reveal_strlit("-");
        }
        out.append("-");
        assert(out@ =~= seq!['-']);
    }
    push_digits(&mut out, magnitude);
    proof {
        if !negative {
            assert(out@ =~= digits(magnitude as nat));
        }
    }
    out
}

/// What is left of `x` modulo `r` where `x` is less than `r` away from the
/// range from 0 up to `r`.
proof fn lemma_fold_once(x: int, r: int)
    requires
        0 < r,
        -r <= x < 2 * r,
    ensures
        x % r == if x < 0 {
            x + r
        } else if x < r {
            x
        } else {
            x - r
        },
{
    if x < 0 {
        lemma_fundamental_div_mod_converse(x, r, -1, x + r);
    } else if x < r {
        lemma_fundamental_div_mod_converse(x, r, 0, x);
    } else {
        lemma_fundamental_div_mod_converse(x, r, 1, x - r);
    }
}

/// An element type whose arithmetic is that of the integers, folded into the
/// type's range by `wrap`.
///
/// `value` reads an element as an integer and `wrap` folds an integer back
/// into the type. The three lemmas make `wrap` a ring homomorphism with
/// `value` as a section, which is all the rest of the crate relies on.
pub trait Numeric: Copy {
    /// The integer this element stands for.
    spec fn value(self) -> int;

    /// The element that stands for `v` once it is folded into the type's range.
    spec fn wrap(v: int) -> Self;

    /// Folding the value of an element gives the element back.
    proof fn lemma_wrap_value(x: Self)
        ensures
            Self::wrap(x.value()) == x,
    ;

    /// Folding early does not change a sum.
    proof fn lemma_wrap_sum(u: int, v: int)
        ensures
            Self::wrap(Self::wrap(u).value() + v) == Self::wrap(u + v),
    ;

    /// Folding early does not change a product.
    proof fn lemma_wrap_product(u: int, v: int)
        ensures
            Self::wrap(Self::wrap(u).value() * v) == Self::wrap(u * v),
    ;

    /// The additive identity.
    fn zero() -> (z: Self)
        ensures
            z == Self::wrap(0),
    ;

    /// Addition in the type's own arithmetic: overflow wraps around.
    fn plus(self, rhs: Self) -> (s: Self)
        ensures
            s == Self::wrap(self.value() + rhs.value()),
    ;

    /// Multiplication in the type's own arithmetic: overflow wraps around.
    fn times(self, rhs: Self) -> (p: Self)
        ensures
            p == Self::wrap(self.value() * rhs.value()),
    ;

    /// The element in decimal notation.
    fn text(&self) -> (s: String)
        ensures
            s@ == decimal(self.value()),
    ;
}

/// The sum of `a` and `b` in the arithmetic of `T`: what `plus` returns.
pub open spec fn sum<T: Numeric>(a: T, b: T) -> T {
    T::wrap(a.value() + b.value())
}

/// The product of `a` and `b` in the arithmetic of `T`: what `times`
/// returns.
pub open spec fn prod<T: Numeric>(a: T, b: T) -> T {
    T::wrap(a.value() * b.value())
}

/// The elements of a numeric type form a commutative ring under `plus` and
/// `times`, with `zero` as its additive identity: sums and products may be
/// regrouped and reordered at will without changing what comes out.
pub proof fn lemma_ring_laws<T: Numeric>(a: T, b: T, c: T)
    ensures
        sum(a, b) == sum(b, a),
        prod(a, b) == prod(b, a),
        sum(sum(a, b), c) == sum(a, sum(b, c)),
        prod(prod(a, b), c) == prod(a, prod(b, c)),
        prod(a, sum(b, c)) == sum(prod(a, b), prod(a, c)),
        sum(T::wrap(0), a) == a,
{
    let (x, y, z) = (a.value(), b.value(), c.value());
    assert(x + y == y + x);
    assert(x * y == y * x) by (nonlinear_arith);
    assert(sum(sum(a, b), c) == sum(a, sum(b, c))) by {
        T::lemma_wrap_sum(x + y, z);
        T::lemma_wrap_sum(y + z, x);
        assert(T::wrap(y + z).value() + x == x + T::wrap(y + z).value());
        assert((x + y) + z == (y + z) + x);
    }
    assert(prod(prod(a, b), c) == prod(a, prod(b, c))) by {
        T::lemma_wrap_product(x * y, z);
        T::lemma_wrap_product(y * z, x);
        assert(T::wrap(y * z).value() * x == x * T::wrap(y * z).value()) by (nonlinear_arith);
        assert((x * y) * z == (y * z) * x) by (nonlinear_arith);
    }
    assert(prod(a, sum(b, c)) == sum(prod(a, b), prod(a, c))) by {
        T::lemma_wrap_product(y + z, x);
        assert(T::wrap(y + z).value() * x == x * T::wrap(y + z).value()) by (nonlinear_arith);
        assert((y + z) * x == x * y + x * z) by (nonlinear_arith);
        T::lemma_wrap_sum(x * y, T::wrap(x * z).value());
        T::lemma_wrap_sum(x * z, x * y);
        assert(x * y + T::wrap(x * z).value() == T::wrap(x * z).value() + x * y);
        assert(x * z + x * y == x * y + x * z);
    }
    assert(sum(T::wrap(0), a) == a) by {
        T::lemma_wrap_sum(0, x);
        T::lemma_wrap_value(a);
    }
}

impl Numeric for i8 {
    open spec fn value(self) -> int {
        self as int
    }

    open spec fn wrap(v: int) -> Self {
        vstd::wrapping::i8_specs::signed_crop(v)
    }

    proof fn lemma_wrap_value(x: Self) {
    }

    proof fn lemma_wrap_sum(u: int, v: int) {
        lemma_add_mod_noop(u, v, 0x100);
        lemma_add_mod_noop(Self::wrap(u).value(), v, 0x100);
    }

    proof fn lemma_wrap_product(u: int, v: int) {
        lemma_mul_mod_noop(u, v, 0x100);
        lemma_mul_mod_noop(Self::wrap(u).value(), v, 0x100);
    }

    fn zero() -> (z: Self) {
        0
    }

    fn plus(self, rhs: Self) -> (s: Self) {
        self.wrapping_add(rhs)
    }

    fn times(self, rhs: Self) -> (p: Self) {
        self.wrapping_mul(rhs)
    }

    fn text(&self) -> (s: String) {
        let v: i8 = *self;
        if v < 0 {
            decimal_string(true, ((-(v + 1)) as u128) + 1)
        } else {
            decimal_string(false, v as u128)
        }
    }
}

impl Numeric for i16 {
    open spec fn value(self) -> int {
        self as int
    }

    open spec fn wrap(v: int) -> Self {
        vstd::wrapping::i16_specs::signed_crop(v)
    }

    proof fn lemma_wrap_value(x: Self) {
    }

    proof fn lemma_wrap_sum(u: int, v: int) {
        lemma_add_mod_noop(u, v, 0x1_0000);
        lemma_add_mod_noop(Self::wrap(u).value(), v, 0x1_0000);
    }

    proof fn lemma_wrap_product(u: int, v: int) {
        lemma_mul_mod_noop(u, v, 0x1_0000);
        lemma_mul_mod_noop(Self::wrap(u).value(), v, 0x1_0000);
    }

    fn zero() -> (z: Self) {
        0
    }

    fn plus(self, rhs: Self) -> (s: Self) {
        self.wrapping_add(rhs)
    }

    fn times(self, rhs: Self) -> (p: Self) {
        self.wrapping_mul(rhs)
    }

    fn text(&self) -> (s: String) {
        let v: i16 = *self;
        if v < 0 {
            decimal_string(true, ((-(v + 1)) as u128) + 1)
        } else {
            decimal_string(false, v as u128)
        }
    }
}

impl Numeric for i32 {
    open spec fn value(self) -> int {
        self as int
    }

    open spec fn wrap(v: int) -> Self {
        vstd::wrapping::i32_specs::signed_crop(v)
    }

    proof fn lemma_wrap_value(x: Self) {
    }

    proof fn lemma_wrap_sum(u: int, v: int) {
        lemma_add_mod_noop(u, v, 0x1_0000_0000);
        lemma_add_mod_noop(Self::wrap(u).value(), v, 0x1_0000_0000);
    }

    proof fn lemma_wrap_product(u: int, v: int) {
        lemma_mul_mod_noop(u, v, 0x1_0000_0000);
        lemma_mul_mod_noop(Self::wrap(u).value(), v, 0x1_0000_0000);
    }

    fn zero() -> (z: Self) {
        0
    }

    fn plus(self, rhs: Self) -> (s: Self) {
        self.wrapping_add(rhs)
    }

    fn times(self, rhs: Self) -> (p: Self) {
        self.wrapping_mul(rhs)
    }

    fn text(&self) -> (s: String) {
        let v: i32 = *self;
        if v < 0 {
            decimal_string(true, ((-(v + 1)) as u128) + 1)
        } else {
            decimal_string(false, v as u128)
        }
    }
}

impl Numeric for i64 {
    open spec fn value(self) -> int {
        self as int
    }

    open spec fn wrap(v: int) -> Self {
        vstd::wrapping::i64_specs::signed_crop(v)
    }

    proof fn lemma_wrap_value(x: Self) {
    }

    proof fn lemma_wrap_sum(u: int, v: int) {
        lemma_add_mod_noop(u, v, 0x1_0000_0000_0000_0000);
        lemma_add_mod_noop(Self::wrap(u).value(), v, 0x1_0000_0000_0000_0000);
    }

    proof fn lemma_wrap_product(u: int, v: int) {
        lemma_mul_mod_noop(u, v, 0x1_0000_0000_0000_0000);
        lemma_mul_mod_noop(Self::wrap(u).value(), v, 0x1_0000_0000_0000_0000);
    }

    fn zero() -> (z: Self) {
        0
    }

    fn plus(self, rhs: Self) -> (s: Self) {
        self.wrapping_add(rhs)
    }

    fn times(self, rhs: Self) -> (p: Self) {
        self.wrapping_mul(rhs)
    }

    fn text(&self) -> (s: String) {
        let v: i64 = *self;
        if v < 0 {
            decimal_string(true, ((-(v + 1)) as u128) + 1)
        } else {
            decimal_string(false, v as u128)
        }
    }
}

impl Numeric for u8 {
    open spec fn value(self) -> int {
        self as int
    }

    open spec fn wrap(v: int) -> Self {
        (v % 0x100) as u8
    }

    proof fn lemma_wrap_value(x: Self) {
    }

    proof fn lemma_wrap_sum(u: int, v: int) {
        lemma_add_mod_noop(u, v, 0x100);
        lemma_add_mod_noop(Self::wrap(u).value(), v, 0x100);
    }

    proof fn lemma_wrap_product(u: int, v: int) {
        lemma_mul_mod_noop(u, v, 0x100);
        lemma_mul_mod_noop(Self::wrap(u).value(), v, 0x100);
    }

    fn zero() -> (z: Self) {
        0
    }

    fn plus(self, rhs: Self) -> (s: Self) {
        self.wrapping_add(rhs)
    }

    fn times(self, rhs: Self) -> (p: Self) {
        self.wrapping_mul(rhs)
    }

    fn text(&self) -> (s: String) {
        decimal_string(false, *self as u128)
    }
}

impl Numeric for u16 {
    open spec fn value(self) -> int {
        self as int
    }

    open spec fn wrap(v: int) -> Self {
        (v % 0x1_0000) as u16
    }

    proof fn lemma_wrap_value(x: Self) {
    }

    proof fn lemma_wrap_sum(u: int, v: int) {
        lemma_add_mod_noop(u, v, 0x1_0000);
        lemma_add_mod_noop(Self::wrap(u).value(), v, 0x1_0000);
    }

    proof fn lemma_wrap_product(u: int, v: int) {
        lemma_mul_mod_noop(u, v, 0x1_0000);
        lemma_mul_mod_noop(Self::wrap(u).value(), v, 0x1_0000);
    }

    fn zero() -> (z: Self) {
        0
    }

    fn plus(self, rhs: Self) -> (s: Self) {
        self.wrapping_add(rhs)
    }

    fn times(self, rhs: Self) -> (p: Self) {
        self.wrapping_mul(rhs)
    }

    fn text(&self) -> (s: String) {
        decimal_string(false, *self as u128)
    }
}

impl Numeric for u32 {
    open spec fn value(self) -> int {
        self as int
    }

    open spec fn wrap(v: int) -> Self {
        (v % 0x1_0000_0000) as u32
    }

    proof fn lemma_wrap_value(x: Self) {
    }

    proof fn lemma_wrap_sum(u: int, v: int) {
        lemma_add_mod_noop(u, v, 0x1_0000_0000);
        lemma_add_mod_noop(Self::wrap(u).value(), v, 0x1_0000_0000);
    }

    proof fn lemma_wrap_product(u: int, v: int) {
        lemma_mul_mod_noop(u, v, 0x1_0000_0000);
        lemma_mul_mod_noop(Self::wrap(u).value(), v, 0x1_0000_0000);
    }

    fn zero() -> (z: Self) {
        0
    }

    fn plus(self, rhs: Self) -> (s: Self) {
        self.wrapping_add(rhs)
    }

    fn times(self, rhs: Self) -> (p: Self) {
        self.wrapping_mul(rhs)
    }

    fn text(&self) -> (s: String) {
        decimal_string(false, *self as u128)
    }
}

impl Numeric for u64 {
    open spec fn value(self) -> int {
        self as int
    }

    open spec fn wrap(v: int) -> Self {
        (v % 0x1_0000_0000_0000_0000) as u64
    }

    proof fn lemma_wrap_value(x: Self) {
    }

    proof fn lemma_wrap_sum(u: int, v: int) {
        lemma_add_mod_noop(u, v, 0x1_0000_0000_0000_0000);
        lemma_add_mod_noop(Self::wrap(u).value(), v, 0x1_0000_0000_0000_0000);
    }

    proof fn lemma_wrap_product(u: int, v: int) {
        lemma_mul_mod_noop(u, v, 0x1_0000_0000_0000_0000);
        lemma_mul_mod_noop(Self::wrap(u).value(), v, 0x1_0000_0000_0000_0000);
    }

    fn zero() -> (z: Self) {
        0
    }

    fn plus(self, rhs: Self) -> (s: Self) {
        self.wrapping_add(rhs)
    }

    fn times(self, rhs: Self) -> (p: Self) {
        self.wrapping_mul(rhs)
    }

    fn text(&self) -> (s: String) {
        decimal_string(false, *self as u128)
    }
}

impl Numeric for i128 {
    open spec fn value(self) -> int {
        self as int
    }

    open spec fn wrap(v: int) -> Self {
        vstd::wrapping::i128_specs::signed_crop(v)
    }

    proof fn lemma_wrap_value(x: Self) {
    }

    proof fn lemma_wrap_sum(u: int, v: int) {
        lemma_add_mod_noop(u, v, 0x1_0000_0000_0000_0000_0000_0000_0000_0000int);
        lemma_add_mod_noop(Self::wrap(u).value(), v, 0x1_0000_0000_0000_0000_0000_0000_0000_0000int);
    }

    proof fn lemma_wrap_product(u: int, v: int) {
        lemma_mul_mod_noop(u, v, 0x1_0000_0000_0000_0000_0000_0000_0000_0000int);
        lemma_mul_mod_noop(Self::wrap(u).value(), v, 0x1_0000_0000_0000_0000_0000_0000_0000_0000int);
    }

    fn zero() -> (z: Self) {
        0
    }

    fn plus(self, rhs: Self) -> (s: Self) {
        self.wrapping_add(rhs)
    }

    fn times(self, rhs: Self) -> (p: Self) {
        self.wrapping_mul(rhs)
    }

    fn text(&self) -> (s: String) {
        let v: i128 = *self;
        if v < 0 {
            decimal_string(true, ((-(v + 1)) as u128) + 1)
        } else {
            decimal_string(false, v as u128)
        }
    }
}

impl Numeric for isize {
    open spec fn value(self) -> int {
        self as int
    }

    open spec fn wrap(v: int) -> Self {
        vstd::wrapping::isize_specs::signed_crop(v)
    }

    proof fn lemma_wrap_value(x: Self) {
        lemma_fold_once(x as int, (usize::MAX - usize::MIN + 1) as int);
    }

    proof fn lemma_wrap_sum(u: int, v: int) {
        lemma_add_mod_noop(u, v, (usize::MAX - usize::MIN + 1));
        lemma_add_mod_noop(Self::wrap(u).value(), v, (usize::MAX - usize::MIN + 1));
    }

    proof fn lemma_wrap_product(u: int, v: int) {
        lemma_mul_mod_noop(u, v, (usize::MAX - usize::MIN + 1));
        lemma_mul_mod_noop(Self::wrap(u).value(), v, (usize::MAX - usize::MIN + 1));
    }

    fn zero() -> (z: Self) {
        0
    }

    fn plus(self, rhs: Self) -> (s: Self) {
        proof {
            lemma_fold_once(self + rhs, (usize::MAX - usize::MIN + 1) as int);
        }
        self.wrapping_add(rhs)
    }

    fn times(self, rhs: Self) -> (p: Self) {
        self.wrapping_mul(rhs)
    }

    fn text(&self) -> (s: String) {
        let v: isize = *self;
        if v < 0 {
            decimal_string(true, ((-(v + 1)) as u128) + 1)
        } else {
            decimal_string(false, v as u128)
        }
    }
}

impl Numeric for u128 {
    open spec fn value(self) -> int {
        self as int
    }

    open spec fn wrap(v: int) -> Self {
        (v % 0x1_0000_0000_0000_0000_0000_0000_0000_0000int) as u128
    }

    proof fn lemma_wrap_value(x: Self) {
    }

    proof fn lemma_wrap_sum(u: int, v: int) {
        lemma_add_mod_noop(u, v, 0x1_0000_0000_0000_0000_0000_0000_0000_0000int);
        lemma_add_mod_noop(Self::wrap(u).value(), v, 0x1_0000_0000_0000_0000_0000_0000_0000_0000int);
    }

    proof fn lemma_wrap_product(u: int, v: int) {
        lemma_mul_mod_noop(u, v, 0x1_0000_0000_0000_0000_0000_0000_0000_0000int);
        lemma_mul_mod_noop(Self::wrap(u).value(), v, 0x1_0000_0000_0000_0000_0000_0000_0000_0000int);
    }

    fn zero() -> (z: Self) {
        0
    }

    fn plus(self, rhs: Self) -> (s: Self) {
        self.wrapping_add(rhs)
    }

    fn times(self, rhs: Self) -> (p: Self) {
        self.wrapping_mul(rhs)
    }

    fn text(&self) -> (s: String) {
        decimal_string(false, *self as u128)
    }
}

impl Numeric for usize {
    open spec fn value(self) -> int {
        self as int
    }

    open spec fn wrap(v: int) -> Self {
        (v % (usize::MAX - usize::MIN + 1)) as usize
    }

    proof fn lemma_wrap_value(x: Self) {
        lemma_fold_once(x as int, (usize::MAX - usize::MIN + 1) as int);
    }

    proof fn lemma_wrap_sum(u: int, v: int) {
        lemma_add_mod_noop(u, v, (usize::MAX - usize::MIN + 1));
        lemma_add_mod_noop(Self::wrap(u).value(), v, (usize::MAX - usize::MIN + 1));
    }

    proof fn lemma_wrap_product(u: int, v: int) {
        lemma_mul_mod_noop(u, v, (usize::MAX - usize::MIN + 1));
        lemma_mul_mod_noop(Self::wrap(u).value(), v, (usize::MAX - usize::MIN + 1));
    }

    fn zero() -> (z: Self) {
        0
    }

    fn plus(self, rhs: Self) -> (s: Self) {
        proof {
            lemma_fold_once(self + rhs, (usize::MAX - usize::MIN + 1) as int);
        }
        self.wrapping_add(rhs)
    }

    fn times(self, rhs: Self) -> (p: Self) {
        self.wrapping_mul(rhs)
    }

    fn text(&self) -> (s: String) {
        decimal_string(false, *self as u128)
    }
}

} // verus!
