use vstd::prelude::*;

verus! {

/// The quotient of `a` by `b`, rounded toward zero (`b != 0`).
pub open spec fn trunc_div(a: int, b: int) -> int {
    let q = abs(a) / abs(b);
    if (a >= 0) == (b > 0) {
        q
    } else {
        -q
    }
}

/// The absolute value of an integer.
pub open spec fn abs(a: int) -> int {
    if a >= 0 {
        a
    } else {
        -a
    }
}

/// Multiplying absolute values gives the absolute value of the product, and
/// the product's sign follows the signs of its factors.
pub proof fn lemma_abs_mul(a: int, b: int)
    ensures
        abs(a) * abs(b) == abs(a * b),
        (a >= 0) == (b >= 0) ==> a * b == abs(a) * abs(b),
        (a >= 0) != (b >= 0) ==> a * b == -(abs(a) * abs(b)),
{
    assert(abs(a) * abs(b) == abs(a * b) && ((a >= 0) == (b >= 0) ==> a * b == abs(a) * abs(b))
        && ((a >= 0) != (b >= 0) ==> a * b == -(abs(a) * abs(b)))) by (nonlinear_arith);
}

/// Division rounded toward zero: for a nonzero divisor, the dividend is the
/// quotient times the divisor plus a remainder smaller than the divisor in
/// size, which is zero or has the sign of the dividend. So the quotient is
/// at least zero exactly where the dividend is zero or has the divisor's
/// sign, and no larger in size than the dividend.
pub proof fn lemma_trunc_div_rounds_toward_zero(a: int, b: int)
    requires
        b != 0,
    ensures
        ({
            let q = trunc_div(a, b);
            let r = a - q * b;
            &&& abs(r) < abs(b)
            &&& (r == 0 || (r > 0) == (a > 0))
            &&& (q >= 0 <==> (a == 0 || (a > 0) == (b > 0) || abs(a) < abs(b)))
            &&& abs(q) <= abs(a)
        }),
{
    let q = trunc_div(a, b);
    let qa = abs(a) / abs(b);
    let ra = abs(a) % abs(b);
    assert(abs(b) > 0);
    vstd::arithmetic::div_mod::lemma_fundamental_div_mod(abs(a), abs(b));
    assert(0 <= ra < abs(b)) by {
        vstd::arithmetic::div_mod::lemma_mod_bound(abs(a), abs(b));
    }
    assert(qa >= 0) by {
        vstd::arithmetic::div_mod::lemma_div_pos_is_pos(abs(a), abs(b));
    }
    assert(abs(a) == abs(b) * qa + ra);
    lemma_abs_mul(q, b);
    if (a >= 0) == (b > 0) {
        assert(q == qa);
    } else {
        assert(q == -qa);
    }
    // a - q * b, in both cases, is the remainder with the sign of a.
    assert(a - q * b == (if a >= 0 { ra } else { -ra })) by (nonlinear_arith)
        requires
            abs(a) == abs(b) * qa + ra,
            abs(a) == (if a >= 0 { a } else { -a }),
            abs(b) == (if b >= 0 { b } else { -b }),
            b != 0,
            q == (if (a >= 0) == (b > 0) { qa } else { -qa }),
    ;
    assert(qa <= abs(a)) by (nonlinear_arith)
        requires
            abs(a) == abs(b) * qa + ra,
            abs(b) >= 1,
            qa >= 0,
            ra >= 0,
    ;
    if qa == 0 {
        assert(abs(b) * qa == 0) by (nonlinear_arith)
            requires
                qa == 0,
        ;
        assert(abs(a) == ra);
    } else {
        assert(abs(a) >= abs(b)) by (nonlinear_arith)
            requires
                abs(a) == abs(b) * qa + ra,
                abs(b) >= 1,
                qa >= 1,
                ra >= 0,
        ;
    }
}

/// A machine number, with its mathematical value and the values its type holds.
pub trait Number: Sized + Copy {
    /// The mathematical value of this number.
    spec fn spec_int(self) -> int;

    /// Whether the type holds the value `v`.
    spec fn in_range(v: int) -> bool;

    /// Every number of the type is in its range.
    proof fn lemma_in_range(x: Self)
        ensures
            Self::in_range(x.spec_int()),
    ;

    /// Every value the type holds lies strictly between minus and plus two to the 64th.
    proof fn lemma_range_bounds(v: int)
        ensures
            Self::in_range(v) ==> -0x1_0000_0000_0000_0000 < v < 0x1_0000_0000_0000_0000,
    ;

    /// Whether the type holds the value `v`.
    fn fits(v: i128) -> (r: bool)
        ensures
            r == Self::in_range(v as int),
    ;

    /// The value of this number, widened.
    fn widen(self) -> (r: i128)
        ensures
            r as int == self.spec_int(),
    ;
}

/// Numbers with a zero that can be added.
pub trait Addable: Number {
    /// Zero.
    fn zero() -> (r: Self)
        ensures
            r.spec_int() == 0,
    ;

    /// The sum of two numbers whose sum the type holds.
    fn plus(self, other: Self) -> (r: Self)
        requires
            Self::in_range(self.spec_int() + other.spec_int()),
        ensures
            r.spec_int() == self.spec_int() + other.spec_int(),
    ;
}

/// Numbers with a zero that can be subtracted.
pub trait Subtractable: Number {
    /// Zero.
    fn zero() -> (r: Self)
        ensures
            r.spec_int() == 0,
    ;

    /// The difference of two numbers whose difference the type holds.
    fn minus(self, other: Self) -> (r: Self)
        requires
            Self::in_range(self.spec_int() - other.spec_int()),
        ensures
            r.spec_int() == self.spec_int() - other.spec_int(),
    ;
}

/// Numbers with a one that can be multiplied.
pub trait Multipliable: Number {
    /// One.
    fn one() -> (r: Self)
        ensures
            r.spec_int() == 1,
    ;

    /// The product of two numbers whose product the type holds.
    fn times(self, other: Self) -> (r: Self)
        requires
            Self::in_range(self.spec_int() * other.spec_int()),
        ensures
            r.spec_int() == self.spec_int() * other.spec_int(),
    ;
}

/// Numbers with a zero and a one that can be divided.
pub trait Divisible: Number {
    /// Zero.
    fn zero() -> (r: Self)
        ensures
            r.spec_int() == 0,
    ;

    /// One.
    fn one() -> (r: Self)
        ensures
            r.spec_int() == 1,
    ;

    /// Whether this number is zero.
    fn is_zero(self) -> (r: bool)
        ensures
            r == (self.spec_int() == 0),
    ;

    /// The quotient, rounded toward zero, of two numbers whose quotient the type holds.
    fn divided_by(self, other: Self) -> (r: Self)
        requires
            other.spec_int() != 0,
            Self::in_range(trunc_div(self.spec_int(), other.spec_int())),
        ensures
            r.spec_int() == trunc_div(self.spec_int(), other.spec_int()),
    ;
}

impl Number for u32 {
    open spec fn spec_int(self) -> int {
        self as int
    }

    open spec fn in_range(v: int) -> bool {
        u32::MIN <= v <= u32::MAX
    }

    proof fn lemma_in_range(x: Self) {
    }

    proof fn lemma_range_bounds(v: int) {
    }

    fn fits(v: i128) -> (r: bool) {
        u32::MIN as i128 <= v && v <= u32::MAX as i128
    }

    fn widen(self) -> (r: i128) {
        self as i128
    }
}

impl Addable for u32 {
    fn zero() -> (r: Self) {
        0
    }

    fn plus(self, other: Self) -> (r: Self) {
        self + other
    }
}

impl Subtractable for u32 {
    fn zero() -> (r: Self) {
        0
    }

    fn minus(self, other: Self) -> (r: Self) {
        self - other
    }
}

impl Multipliable for u32 {
    fn one() -> (r: Self) {
        1
    }

    fn times(self, other: Self) -> (r: Self) {
        self * other
    }
}

impl Divisible for u32 {
    fn zero() -> (r: Self) {
        0
    }

    fn one() -> (r: Self) {
        1
    }

    fn is_zero(self) -> (r: bool) {
        self == 0
    }

    fn divided_by(self, other: Self) -> (r: Self) {
        self / other
    }
}

impl Number for u64 {
    open spec fn spec_int(self) -> int {
        self as int
    }

    open spec fn in_range(v: int) -> bool {
        u64::MIN <= v <= u64::MAX
    }

    proof fn lemma_in_range(x: Self) {
    }

    proof fn lemma_range_bounds(v: int) {
    }

    fn fits(v: i128) -> (r: bool) {
        u64::MIN as i128 <= v && v <= u64::MAX as i128
    }

    fn widen(self) -> (r: i128) {
        self as i128
    }
}

impl Addable for u64 {
    fn zero() -> (r: Self) {
        0
    }

    fn plus(self, other: Self) -> (r: Self) {
        self + other
    }
}

impl Subtractable for u64 {
    fn zero() -> (r: Self) {
        0
    }

    fn minus(self, other: Self) -> (r: Self) {
        self - other
    }
}

impl Multipliable for u64 {
    fn one() -> (r: Self) {
        1
    }

    fn times(self, other: Self) -> (r: Self) {
        self * other
    }
}

impl Divisible for u64 {
    fn zero() -> (r: Self) {
        0
    }

    fn one() -> (r: Self) {
        1
    }

    fn is_zero(self) -> (r: bool) {
        self == 0
    }

    fn divided_by(self, other: Self) -> (r: Self) {
        self / other
    }
}

impl Number for i32 {
    open spec fn spec_int(self) -> int {
        self as int
    }

    open spec fn in_range(v: int) -> bool {
        i32::MIN <= v <= i32::MAX
    }

    proof fn lemma_in_range(x: Self) {
    }

    proof fn lemma_range_bounds(v: int) {
    }

    fn fits(v: i128) -> (r: bool) {
        i32::MIN as i128 <= v && v <= i32::MAX as i128
    }

    fn widen(self) -> (r: i128) {
        self as i128
    }
}

impl Addable for i32 {
    fn zero() -> (r: Self) {
        0
    }

    fn plus(self, other: Self) -> (r: Self) {
        self + other
    }
}

impl Subtractable for i32 {
    fn zero() -> (r: Self) {
        0
    }

    fn minus(self, other: Self) -> (r: Self) {
        self - other
    }
}

impl Multipliable for i32 {
    fn one() -> (r: Self) {
        1
    }

    fn times(self, other: Self) -> (r: Self) {
        self * other
    }
}

impl Divisible for i32 {
    fn zero() -> (r: Self) {
        0
    }

    fn one() -> (r: Self) {
        1
    }

    fn is_zero(self) -> (r: bool) {
        self == 0
    }

    fn divided_by(self, other: Self) -> (r: Self) {
        let a = self as i128;
        let b = other as i128;
        let ua: u128 = if a >= 0 {
            a as u128
        } else {
            (-a) as u128
        };
        let ub: u128 = if b >= 0 {
            b as u128
        } else {
            (-b) as u128
        };
        let q = ua / ub;
        assert(q <= ua) by (nonlinear_arith)
            requires
                ub >= 1,
                q == ua / ub,
        ;
        let qi = q as i128;
        let r = if (a >= 0) == (b > 0) {
            qi
        } else {
            -qi
        };
        r as i32
    }
}

impl Number for i64 {
    open spec fn spec_int(self) -> int {
        self as int
    }

    open spec fn in_range(v: int) -> bool {
        i64::MIN <= v <= i64::MAX
    }

    proof fn lemma_in_range(x: Self) {
    }

    proof fn lemma_range_bounds(v: int) {
    }

    fn fits(v: i128) -> (r: bool) {
        i64::MIN as i128 <= v && v <= i64::MAX as i128
    }

    fn widen(self) -> (r: i128) {
        self as i128
    }
}

impl Addable for i64 {
    fn zero() -> (r: Self) {
        0
    }

    fn plus(self, other: Self) -> (r: Self) {
        self + other
    }
}

impl Subtractable for i64 {
    fn zero() -> (r: Self) {
        0
    }

    fn minus(self, other: Self) -> (r: Self) {
        self - other
    }
}

impl Multipliable for i64 {
    fn one() -> (r: Self) {
        1
    }

    fn times(self, other: Self) -> (r: Self) {
        self * other
    }
}

impl Divisible for i64 {
    fn zero() -> (r: Self) {
        0
    }

    fn one() -> (r: Self) {
        1
    }

    fn is_zero(self) -> (r: bool) {
        self == 0
    }

    fn divided_by(self, other: Self) -> (r: Self) {
        let a = self as i128;
        let b = other as i128;
        let ua: u128 = if a >= 0 {
            a as u128
        } else {
            (-a) as u128
        };
        let ub: u128 = if b >= 0 {
            b as u128
        } else {
            (-b) as u128
        };
        let q = ua / ub;
        assert(q <= ua) by (nonlinear_arith)
            requires
                ub >= 1,
                q == ua / ub,
        ;
        let qi = q as i128;
        let r = if (a >= 0) == (b > 0) {
            qi
        } else {
            -qi
        };
        r as i64
    }
}

} // verus!

verus! {

/// The quotient, rounded toward zero, of two numbers of less than 64 bits of
/// magnitude.
fn trunc_div_wide(a: i128, b: i128) -> (r: i128)
    requires
        -0x1_0000_0000_0000_0000 < a < 0x1_0000_0000_0000_0000,
        -0x1_0000_0000_0000_0000 < b < 0x1_0000_0000_0000_0000,
        b != 0,
    ensures
        r as int == trunc_div(a as int, b as int),
{
    let ua: u128 = if a >= 0 {
        a as u128
    } else {
        (-a) as u128
    };
    let ub: u128 = if b >= 0 {
        b as u128
    } else {
        (-b) as u128
    };
    let q = ua / ub;
    assert(q <= ua) by (nonlinear_arith)
        requires
            ub >= 1,
            q == ua / ub,
    ;
    let qi = q as i128;
    if (a >= 0) == (b > 0) {
        qi
    } else {
        -qi
    }
}

/// Why a dividing block stopped.
#[derive(Clone, Copy, Debug, PartialEq, Eq, Structural)]
pub enum MathError {
    /// A divisor after the first number was zero.
    DivisionByZero,
}

/// Adds up the numbers it receives; sends the total when its input closes.
pub struct Add<T> {
    sum: T,
}

impl<T: Addable> Add<T> {
    /// The total so far.
    pub closed spec fn spec_total(&self) -> int {
        self.sum.spec_int()
    }

    /// A block that has received nothing: its total is zero.
    pub fn new() -> (a: Self)
        ensures
            a.spec_total() == 0,
    {
        Add { sum: T::zero() }
    }

    /// Whether the total after adding `x` is a number of the type.
    pub fn accepts(&self, x: T) -> (r: bool)
        ensures
            r == T::in_range(self.spec_total() + x.spec_int()),
    {
        proof {
            T::lemma_in_range(self.sum);
            T::lemma_in_range(x);
            T::lemma_range_bounds(self.sum.spec_int());
            T::lemma_range_bounds(x.spec_int());
        }
        T::fits(self.sum.widen() + x.widen())
    }

    /// Adds a number to the total.
    pub fn on_input(&mut self, x: T)
        requires
            T::in_range(old(self).spec_total() + x.spec_int()),
        ensures
            final(self).spec_total() == old(self).spec_total() + x.spec_int(),
    {
        self.sum = self.sum.plus(x);
    }

    /// The input is closed: the number to send, the total.
    pub fn on_input_closed(&self) -> (r: T)
        ensures
            r.spec_int() == self.spec_total(),
    {
        self.sum
    }
}

/// Subtracts from the first number it receives each following one; sends the
/// result when its input closes, or zero if it received nothing.
pub struct Sub<T> {
    result: Option<T>,
}

impl<T: Subtractable> Sub<T> {
    /// The result so far, if any number was received.
    pub closed spec fn spec_result(&self) -> Option<int> {
        match self.result {
            Some(r) => Some(r.spec_int()),
            None => None,
        }
    }

    /// A block that has received nothing.
    pub fn new() -> (s: Self)
        ensures
            s.spec_result() is None,
    {
        Sub { result: None }
    }

    /// Whether receiving `x` keeps the result a number of the type.
    pub fn accepts(&self, x: T) -> (r: bool)
        ensures
            r == (self.spec_result() matches Some(v) ==> T::in_range(v - x.spec_int())),
    {
        match self.result {
            Some(v) => {
                proof {
                    T::lemma_in_range(v);
                    T::lemma_in_range(x);
                    T::lemma_range_bounds(v.spec_int());
                    T::lemma_range_bounds(x.spec_int());
                }
                T::fits(v.widen() - x.widen())
            },
            None => true,
        }
    }

    /// Takes the next number: the first one is the starting value, each
    /// following one is subtracted from the result.
    pub fn on_input(&mut self, x: T)
        requires
            old(self).spec_result() matches Some(v) ==> T::in_range(v - x.spec_int()),
        ensures
            final(self).spec_result() == Some(
                match old(self).spec_result() {
                    Some(v) => v - x.spec_int(),
                    None => x.spec_int(),
                },
            ),
    {
        match self.result {
            Some(v) => {
                self.result = Some(v.minus(x));
            },
            None => {
                self.result = Some(x);
            },
        }
    }

    /// The input is closed: the number to send, the result, or zero if no
    /// number was received.
    pub fn on_input_closed(&self) -> (r: T)
        ensures
            r.spec_int() == match self.spec_result() {
                Some(v) => v,
                None => 0,
            },
    {
        match self.result {
            Some(v) => v,
            None => T::zero(),
        }
    }
}

/// Multiplies the numbers it receives; sends the product when its input
/// closes, one if it received nothing.
pub struct Mul<T> {
    product: T,
}

impl<T: Multipliable> Mul<T> {
    /// The product so far.
    pub closed spec fn spec_product(&self) -> int {
        self.product.spec_int()
    }

    /// A block that has received nothing: its product is one.
    pub fn new() -> (m: Self)
        ensures
            m.spec_product() == 1,
    {
        Mul { product: T::one() }
    }

    /// Whether the product after multiplying by `x` is a number of the type.
    pub fn accepts(&self, x: T) -> (r: bool)
        ensures
            r == T::in_range(self.spec_product() * x.spec_int()),
    {
        let a = self.product.widen();
        let b = x.widen();
        proof {
            T::lemma_in_range(self.product);
            T::lemma_in_range(x);
            T::lemma_range_bounds(self.product.spec_int());
            T::lemma_range_bounds(x.spec_int());
            lemma_abs_mul(a as int, b as int);
            T::lemma_range_bounds(a * b);
        }
        let ua: u128 = if a >= 0 {
            a as u128
        } else {
            (-a) as u128
        };
        let ub: u128 = if b >= 0 {
            b as u128
        } else {
            (-b) as u128
        };
        assert(ua * ub < 0x1_0000_0000_0000_0000 * 0x1_0000_0000_0000_0000) by (nonlinear_arith)
            requires
                ua < 0x1_0000_0000_0000_0000,
                ub < 0x1_0000_0000_0000_0000,
        ;
        let p = ua * ub;
        if p >= 0x1_0000_0000_0000_0000 {
            return false;
        }
        let pi = p as i128;
        let prod = if (a >= 0) == (b >= 0) {
            pi
        } else {
            -pi
        };
        T::fits(prod)
    }

    /// Multiplies the product by a number.
    pub fn on_input(&mut self, x: T)
        requires
            T::in_range(old(self).spec_product() * x.spec_int()),
        ensures
            final(self).spec_product() == old(self).spec_product() * x.spec_int(),
    {
        self.product = self.product.times(x);
    }

    /// The input is closed: the number to send, the product.
    pub fn on_input_closed(&self) -> (r: T)
        ensures
            r.spec_int() == self.spec_product(),
    {
        self.product
    }
}

/// Divides the first number it receives by each following one, rounding
/// toward zero; sends the result when its input closes, or one if it received
/// nothing. A zero divisor stops the block with an error.
pub struct Div<T> {
    result: Option<T>,
}

impl<T: Divisible> Div<T> {
    /// The result so far, if any number was received.
    pub closed spec fn spec_result(&self) -> Option<int> {
        match self.result {
            Some(r) => Some(r.spec_int()),
            None => None,
        }
    }

    /// A block that has received nothing.
    pub fn new() -> (d: Self)
        ensures
            d.spec_result() is None,
    {
        Div { result: None }
    }

    /// Whether taking `x` keeps the result a number of the type: always for
    /// the first number or a zero divisor (which is refused), else where the
    /// quotient fits.
    pub fn accepts(&self, x: T) -> (r: bool)
        ensures
            r == (self.spec_result() matches Some(v) ==> (x.spec_int() != 0 ==> T::in_range(
                trunc_div(v, x.spec_int()),
            ))),
    {
        match self.result {
            Some(v) => {
                if x.is_zero() {
                    return true;
                }
                proof {
                    T::lemma_in_range(v);
                    T::lemma_in_range(x);
                    T::lemma_range_bounds(v.spec_int());
                    T::lemma_range_bounds(x.spec_int());
                }
                T::fits(trunc_div_wide(v.widen(), x.widen()))
            },
            None => true,
        }
    }

    /// Takes the next number: the first one is the dividend; each following
    /// one divides the result, and a zero one is refused.
    pub fn on_input(&mut self, x: T) -> (r: Result<(), MathError>)
        requires
            old(self).spec_result() matches Some(v) ==> (x.spec_int() != 0 ==> T::in_range(
                trunc_div(v, x.spec_int()),
            )),
        ensures
            old(self).spec_result() is None ==> r is Ok && final(self).spec_result() == Some(x.spec_int()),
            old(self).spec_result() is Some && x.spec_int() == 0 ==> r == Err::<(), MathError>(
                MathError::DivisionByZero,
            ) && final(self).spec_result() == old(self).spec_result(),
            old(self).spec_result() matches Some(v) ==> (x.spec_int() != 0 ==> r is Ok
                && final(self).spec_result() == Some(trunc_div(v, x.spec_int()))),
            (match div_step(old(self).spec_result(), x.spec_int()) {
                Ok(n) => r is Ok && final(self).spec_result() == n,
                Err(e) => r == Err::<(), MathError>(e) && final(self).spec_result() == old(
                    self,
                ).spec_result(),
            }),
    {
        match self.result {
            Some(v) => {
                if x.is_zero() {
                    return Err(MathError::DivisionByZero);
                }
                self.result = Some(v.divided_by(x));
                Ok(())
            },
            None => {
                self.result = Some(x);
                Ok(())
            },
        }
    }

    /// The input is closed: the number to send, the result, or one if no
    /// number was received.
    pub fn on_input_closed(&self) -> (r: T)
        ensures
            r.spec_int() == match self.spec_result() {
                Some(v) => v,
                None => 1,
            },
    {
        match self.result {
            Some(v) => v,
            None => T::one(),
        }
    }
}

/// What a dividing block whose result so far is `r` does with the number
/// `x`: its new result, or why it stops.
pub open spec fn div_step(r: Option<int>, x: int) -> Result<Option<int>, MathError> {
    match r {
        None => Ok(Some(x)),
        Some(v) => if x == 0 {
            Err(MathError::DivisionByZero)
        } else {
            Ok(Some(trunc_div(v, x)))
        },
    }
}

/// A dividing block fed the numbers `xs` one by one from nothing: its
/// result, or why it stopped.
pub open spec fn div_feed(xs: Seq<int>) -> Result<Option<int>, MathError>
    decreases xs.len(),
{
    if xs.len() == 0 {
        Ok(None)
    } else {
        match div_feed(xs.drop_last()) {
            Err(e) => Err(e),
            Ok(r) => div_step(r, xs.last()),
        }
    }
}

/// Over a stream a dividing block stops exactly where a number after the
/// first is zero; otherwise its result is the first number divided in turn by
/// each following one, a left fold of the rounded quotient.
pub proof fn lemma_div_stream(xs: Seq<int>)
    requires
        xs.len() >= 1,
    ensures
        div_feed(xs) == (if exists|i: int| 1 <= i < xs.len() && xs[i] == 0 {
            Err::<Option<int>, MathError>(MathError::DivisionByZero)
        } else {
            Ok(Some(xs.drop_first().fold_left(xs[0], |a: int, b: int| trunc_div(a, b))))
        }),
    decreases xs.len(),
{
    let f = |a: int, b: int| trunc_div(a, b);
    if xs.len() == 1 {
        assert(xs.drop_last().len() == 0);
        assert(xs.drop_first().len() == 0);
    } else {
        let ys = xs.drop_last();
        lemma_div_stream(ys);
        assert(xs.drop_first().drop_last() =~= ys.drop_first());
        if exists|i: int| 1 <= i < ys.len() && ys[i] == 0 {
            let i = choose|i: int| 1 <= i < ys.len() && ys[i] == 0;
            assert(xs[i] == 0);
        } else if xs.last() == 0 {
            assert(xs[xs.len() - 1] == 0);
        } else {
            assert forall|i: int| 1 <= i < xs.len() implies xs[i] != 0 by {
                if i < ys.len() {
                    assert(ys[i] == xs[i]);
                }
            }
        }
    }
}

} // verus!
