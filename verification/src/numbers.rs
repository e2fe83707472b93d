//! Numbers of the language.
//!
//! A number is a double-precision value, carried as its IEEE-754 binary64 bit
//! pattern in a `u64`. Ordering and sign tests are decided here on the bit
//! pattern. Arithmetic, trigonometry and the conversion between numbers and
//! text are supplied by the embedding program through a [`Host`].

use vstd::prelude::*;

verus! {

/// The sign bit of a bit pattern.
pub const SIGN_BIT: u64 = 0x8000_0000_0000_0000;

/// Positive infinity. Every magnitude above it is a NaN.
pub const INFINITY_BITS: u64 = 0x7ff0_0000_0000_0000;

/// The NaN that stands for every NaN.
pub const NAN_BITS: u64 = 0x7ff8_0000_0000_0000;

/// Positive zero.
pub const ZERO_BITS: u64 = 0;

/// The double closest to pi.
pub const PI_BITS: u64 = 0x4009_21fb_5444_2d18;

/// The double closest to pi, doubled.
pub const TWO_PI_BITS: u64 = 0x4019_21fb_5444_2d18;

/// The double closest to Euler's number.
pub const E_BITS: u64 = 0x4005_bf0a_8b14_5769;

/// The binary operations that the host computes.
#[derive(Clone, Copy, PartialEq, Eq, Structural, Debug)]
pub enum ArithOp {
    Add,
    Sub,
    Mul,
    Div,
    Rem,
}

/// The unary operations that the host computes.
#[derive(Clone, Copy, PartialEq, Eq, Structural, Debug)]
pub enum TrigOp {
    Sin,
    Cos,
    Tan,
}

/// The order relations between two numbers.
#[derive(Clone, Copy, PartialEq, Eq, Structural, Debug)]
pub enum Relation {
    Less,
    More,
    Equal,
    LessOrEqual,
    MoreOrEqual,
}

/// The bit pattern without its sign bit.
pub open spec fn magnitude(bits: u64) -> u64 {
    if bits >= SIGN_BIT {
        (bits - SIGN_BIT) as u64
    } else {
        bits
    }
}

/// Whether the bit pattern is a NaN: all exponent bits set and a mantissa
/// that is not zero.
pub open spec fn is_nan(bits: u64) -> bool {
    magnitude(bits) > INFINITY_BITS
}

/// The place of a number that is not a NaN on the number line: doubles of one
/// sign are ordered as their magnitudes are, and both zeros share a place.
pub open spec fn rank(bits: u64) -> int {
    if bits >= SIGN_BIT {
        -(magnitude(bits) as int)
    } else {
        bits as int
    }
}

/// `a < b` on doubles: false as soon as one side is a NaN.
pub open spec fn less(a: u64, b: u64) -> bool {
    !is_nan(a) && !is_nan(b) && rank(a) < rank(b)
}

/// `a == b` on doubles: false as soon as one side is a NaN, true of the two
/// zeros.
pub open spec fn same(a: u64, b: u64) -> bool {
    !is_nan(a) && !is_nan(b) && rank(a) == rank(b)
}

/// Whether `a` stands in `relation` to `b`.
pub open spec fn holds(relation: Relation, a: u64, b: u64) -> bool {
    match relation {
        Relation::Less => less(a, b),
        Relation::More => less(b, a),
        Relation::Equal => same(a, b),
        Relation::LessOrEqual => less(a, b) || same(a, b),
        Relation::MoreOrEqual => less(b, a) || same(a, b),
    }
}

/// `bits > 0.0` on doubles.
pub open spec fn positive(bits: u64) -> bool {
    less(ZERO_BITS, bits)
}

/// The bit pattern with every NaN replaced by one NaN. Which NaN an
/// operation yields is not fixed, and nothing in the language tells two of
/// them apart.
pub open spec fn canonical(bits: u64) -> u64 {
    if is_nan(bits) {
        NAN_BITS
    } else {
        bits
    }
}

/// The bit pattern without its sign bit.
pub fn magnitude_of(bits: u64) -> (m: u64)
    ensures
        m == magnitude(bits),
{
    if bits >= SIGN_BIT {
        bits - SIGN_BIT
    } else {
        bits
    }
}

/// Decides whether a bit pattern is a NaN.
pub fn is_nan_bits(bits: u64) -> (r: bool)
    ensures
        r == is_nan(bits),
{
    magnitude_of(bits) > INFINITY_BITS
}

/// Decides `a < b`.
pub fn is_less(a: u64, b: u64) -> (r: bool)
    ensures
        r == less(a, b),
{
    if is_nan_bits(a) || is_nan_bits(b) {
        false
    } else {
        let a_negative = a >= SIGN_BIT;
        let b_negative = b >= SIGN_BIT;
        let ma = magnitude_of(a);
        let mb = magnitude_of(b);
        if a_negative && b_negative {
            ma > mb
        } else if a_negative {
            ma > 0 || mb > 0
        } else if b_negative {
            false
        } else {
            ma < mb
        }
    }
}

/// Decides `a == b`.
pub fn is_same(a: u64, b: u64) -> (r: bool)
    ensures
        r == same(a, b),
{
    if is_nan_bits(a) || is_nan_bits(b) {
        false
    } else {
        let ma = magnitude_of(a);
        let mb = magnitude_of(b);
        a == b || (ma == 0 && mb == 0)
    }
}

/// Decides an order relation between two numbers.
pub fn compare(relation: Relation, a: u64, b: u64) -> (r: bool)
    ensures
        r == holds(relation, a, b),
{
    match relation {
        Relation::Less => is_less(a, b),
        Relation::More => is_less(b, a),
        Relation::Equal => is_same(a, b),
        Relation::LessOrEqual => is_less(a, b) || is_same(a, b),
        Relation::MoreOrEqual => is_less(b, a) || is_same(a, b),
    }
}

/// Decides `bits > 0.0`.
pub fn is_positive(bits: u64) -> (r: bool)
    ensures
        r == positive(bits),
        r == (0 < bits <= INFINITY_BITS),
{
    is_less(ZERO_BITS, bits)
}

/// Replaces a NaN by the one NaN.
pub fn canonical_bits(bits: u64) -> (r: u64)
    ensures
        r == canonical(bits),
{
    if is_nan_bits(bits) {
        NAN_BITS
    } else {
        bits
    }
}

/// What a host computes, as mathematical functions.
pub struct Numerics {
    /// The result of a binary operation on two numbers.
    pub arith: spec_fn(ArithOp, u64, u64) -> u64,
    /// The result of a unary operation on a number.
    pub trig: spec_fn(TrigOp, u64) -> u64,
    /// The text of a number.
    pub render: spec_fn(u64) -> Seq<char>,
    /// The number that a text denotes, if it denotes one.
    pub read: spec_fn(Seq<char>) -> Option<u64>,
}

/// The floating-point operations of the embedding program.
///
/// The interpreter decides nothing about their results: it is verified for
/// every host that answers each request, and answers it the same way each
/// time (up to the choice of a NaN).
pub struct Host<A, T, R, P> {
    pub arith: A,
    pub trig: T,
    pub render: R,
    pub read: P,
}

impl<A, T, R, P> Host<A, T, R, P> where
    A: Fn(ArithOp, u64, u64) -> u64,
    T: Fn(TrigOp, u64) -> u64,
    R: Fn(u64) -> String,
    P: Fn(&str) -> Option<u64>,
 {
    /// `r` is a possible answer of the host to reading `token`.
    pub open spec fn may_read(&self, token: Seq<char>, r: Option<u64>) -> bool {
        exists|s: &str| s@ == token && #[trigger] call_ensures(self.read, (s,), r)
    }

    /// The host answers every request, and its answers are functions of the
    /// requests: two answers to one request differ at most in the NaN chosen.
    pub open spec fn wf(&self) -> bool {
        &&& forall|op: ArithOp, a: u64, b: u64| call_requires(self.arith, (op, a, b))
        &&& forall|op: ArithOp, a: u64, b: u64, r1: u64, r2: u64|
            call_ensures(self.arith, (op, a, b), r1) && call_ensures(self.arith, (op, a, b), r2)
                ==> canonical(r1) == canonical(r2)
        &&& forall|op: TrigOp, a: u64| call_requires(self.trig, (op, a))
        &&& forall|op: TrigOp, a: u64, r1: u64, r2: u64|
            call_ensures(self.trig, (op, a), r1) && call_ensures(self.trig, (op, a), r2)
                ==> canonical(r1) == canonical(r2)
        &&& forall|a: u64| call_requires(self.render, (a,))
        &&& forall|a: u64, r1: String, r2: String|
            call_ensures(self.render, (a,), r1) && call_ensures(self.render, (a,), r2) ==> r1@
                == r2@
        &&& forall|s: &str| call_requires(self.read, (s,))
        &&& forall|token: Seq<char>, r1: Option<u64>, r2: Option<u64>|
            self.may_read(token, r1) && self.may_read(token, r2) ==> canonical_read(r1)
                == canonical_read(r2)
    }

    /// The functions that the host computes.
    pub open spec fn model(&self) -> Numerics {
        Numerics {
            arith: |op: ArithOp, a: u64, b: u64|
                canonical(choose|r: u64| call_ensures(self.arith, (op, a, b), r)),
            trig: |op: TrigOp, a: u64| canonical(choose|r: u64| call_ensures(self.trig, (op, a), r)),
            render: |a: u64| (choose|r: String| call_ensures(self.render, (a,), r))@,
            read: |token: Seq<char>|
                canonical_read(choose|r: Option<u64>| self.may_read(token, r)),
        }
    }

    /// A host made of four operations.
    pub fn new(arith: A, trig: T, render: R, read: P) -> (host: Self)
        ensures
            host.arith == arith,
            host.trig == trig,
            host.render == render,
            host.read == read,
    {
        Host { arith, trig, render, read }
    }

    /// Asks the host for `a op b`.
    pub fn binary(&self, op: ArithOp, a: u64, b: u64) -> (r: u64)
        requires
            self.wf(),
        ensures
            r == (self.model().arith)(op, a, b),
    {
        canonical_bits((self.arith)(op, a, b))
    }

    /// Asks the host for `op(a)`.
    pub fn unary(&self, op: TrigOp, a: u64) -> (r: u64)
        requires
            self.wf(),
        ensures
            r == (self.model().trig)(op, a),
    {
        canonical_bits((self.trig)(op, a))
    }

    /// Asks the host for the text of a number.
    pub fn text_of(&self, a: u64) -> (r: String)
        requires
            self.wf(),
        ensures
            r@ == (self.model().render)(a),
    {
        (self.render)(a)
    }

    /// Asks the host which number a token denotes.
    pub fn number_of(&self, token: &str) -> (r: Option<u64>)
        requires
            self.wf(),
        ensures
            r == (self.model().read)(token@),
    {
        let answer = (self.read)(token);
        assert(self.may_read(token@, answer));
        match answer {
            Some(bits) => Some(canonical_bits(bits)),
            None => None,
        }
    }
}

/// The answer to a reading, with every NaN replaced by one NaN.
pub open spec fn canonical_read(r: Option<u64>) -> Option<u64> {
    match r {
        Some(bits) => Some(canonical(bits)),
        None => None,
    }
}

} // verus!
