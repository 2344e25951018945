//! The language's runtime values and the semantics of its operators.
//!
//! A value is a number (64-bit signed integer), a boolean, a string, or the
//! `Nil` sentinel that stands for "no value". Operators applied to operands
//! of the wrong kind, division by zero, and arithmetic whose result falls
//! outside the 64-bit range all yield `Nil` rather than failing.

use vstd::math::abs;
use vstd::prelude::*;

use crate::text::spec_digits;
use crate::text::spec_num_text;
use crate::text::num_to_string;

verus! {

/// A runtime value of the language.
#[derive(Debug)]
pub enum Literal {
    Number(i64),
    Boolean(bool),
    Str(String),
    Nil,
}

/// The mathematical shape of a value: numbers as unbounded integers, strings
/// as character sequences.
pub enum LitV {
    Num(int),
    Bool(bool),
    Str(Seq<char>),
    Nil,
}

impl View for Literal {
    type V = LitV;

    open spec fn view(&self) -> LitV {
        match self {
            Literal::Number(n) => LitV::Num(*n as int),
            Literal::Boolean(b) => LitV::Bool(*b),
            Literal::Str(s) => LitV::Str(s@),
            Literal::Nil => LitV::Nil,
        }
    }
}

impl Clone for Literal {
    fn clone(&self) -> (r: Self)
        ensures
            r@ == self@,
    {
        match self {
            Literal::Number(n) => Literal::Number(*n),
            Literal::Boolean(b) => Literal::Boolean(*b),
            Literal::Str(s) => Literal::Str(s.clone()),
            Literal::Nil => Literal::Nil,
        }
    }
}

impl PartialEq for Literal {
    fn eq(&self, other: &Self) -> (r: bool) {
        match (self, other) {
            (Literal::Number(a), Literal::Number(b)) => *a == *b,
            (Literal::Boolean(a), Literal::Boolean(b)) => *a == *b,
            (Literal::Str(a), Literal::Str(b)) => *a == *b,
            (Literal::Nil, Literal::Nil) => true,
            _ => false,
        }
    }
}

impl vstd::std_specs::cmp::PartialEqSpecImpl for Literal {
    open spec fn obeys_eq_spec() -> bool {
        true
    }

    open spec fn eq_spec(&self, other: &Literal) -> bool {
        self@ == other@
    }
}

/// Whether an unbounded integer fits the language's 64-bit number type.
pub open spec fn in_i64(n: int) -> bool {
    i64::MIN <= n <= i64::MAX
}

/// `base` raised to a natural power.
pub open spec fn spec_pow(base: int, exp: nat) -> int
    decreases exp,
{
    if exp == 0 {
        1
    } else {
        base * spec_pow(base, (exp - 1) as nat)
    }
}

/// The factorial of a natural number.
pub open spec fn spec_fact(n: nat) -> nat
    decreases n,
{
    if n == 0 {
        1
    } else {
        n * spec_fact((n - 1) as nat)
    }
}

/// Division truncating toward zero, as the language's `/` rounds.
pub open spec fn trunc_div(x: int, y: int) -> int {
    if (x < 0) == (y < 0) {
        (abs(x) / abs(y)) as int
    } else {
        -((abs(x) / abs(y)) as int)
    }
}

/// `+`: numeric addition, or string concatenation with numbers promoted to
/// their decimal text; `Nil` on a type mismatch or an out-of-range sum.
pub open spec fn spec_add(a: LitV, b: LitV) -> LitV {
    match (a, b) {
        (LitV::Num(x), LitV::Num(y)) => if in_i64(x + y) {
            LitV::Num(x + y)
        } else {
            LitV::Nil
        },
        (LitV::Str(s), LitV::Str(t)) => LitV::Str(s + t),
        (LitV::Str(s), LitV::Num(y)) => LitV::Str(s + spec_num_text(y)),
        (LitV::Num(x), LitV::Str(t)) => LitV::Str(spec_num_text(x) + t),
        _ => LitV::Nil,
    }
}

/// `-` on two numbers; `Nil` otherwise or on an out-of-range difference.
pub open spec fn spec_sub(a: LitV, b: LitV) -> LitV {
    match (a, b) {
        (LitV::Num(x), LitV::Num(y)) => if in_i64(x - y) {
            LitV::Num(x - y)
        } else {
            LitV::Nil
        },
        _ => LitV::Nil,
    }
}

/// `*` on two numbers; `Nil` otherwise or on an out-of-range product.
pub open spec fn spec_mul(a: LitV, b: LitV) -> LitV {
    match (a, b) {
        (LitV::Num(x), LitV::Num(y)) => if in_i64(x * y) {
            LitV::Num(x * y)
        } else {
            LitV::Nil
        },
        _ => LitV::Nil,
    }
}

/// `/` on two numbers, truncating toward zero; `Nil` on a zero divisor, a
/// type mismatch, or an out-of-range quotient.
pub open spec fn spec_div(a: LitV, b: LitV) -> LitV {
    match (a, b) {
        (LitV::Num(x), LitV::Num(y)) => if y == 0 {
            LitV::Nil
        } else if in_i64(trunc_div(x, y)) {
            LitV::Num(trunc_div(x, y))
        } else {
            LitV::Nil
        },
        _ => LitV::Nil,
    }
}

/// Prefix `-` on a number; `Nil` otherwise or when the negation overflows.
pub open spec fn spec_neg(a: LitV) -> LitV {
    match a {
        LitV::Num(x) => if in_i64(-x) {
            LitV::Num(-x)
        } else {
            LitV::Nil
        },
        _ => LitV::Nil,
    }
}

/// Prefix `!`: boolean negation; a non-boolean operand yields `false`.
pub open spec fn spec_not(a: LitV) -> LitV {
    match a {
        LitV::Bool(b) => LitV::Bool(!b),
        _ => LitV::Bool(false),
    }
}

/// `**` with a non-negative numeric exponent; `Nil` on a negative exponent,
/// a type mismatch, or an out-of-range power.
pub open spec fn spec_pow_value(a: LitV, b: LitV) -> LitV {
    match (a, b) {
        (LitV::Num(x), LitV::Num(y)) => if y < 0 {
            LitV::Nil
        } else if in_i64(spec_pow(x, y as nat)) {
            LitV::Num(spec_pow(x, y as nat))
        } else {
            LitV::Nil
        },
        _ => LitV::Nil,
    }
}

/// Postfix `!`: factorial of a number, `0` for numbers below one; `Nil` on a
/// non-number or an out-of-range result.
pub open spec fn spec_fac_value(a: LitV) -> LitV {
    match a {
        LitV::Num(x) => if x < 1 {
            LitV::Num(0)
        } else if spec_fact(x as nat) <= i64::MAX {
            LitV::Num(spec_fact(x as nat) as int)
        } else {
            LitV::Nil
        },
        _ => LitV::Nil,
    }
}

/// `<`: numeric order on two numbers; any other operand pair compares false.
pub open spec fn spec_lt(a: LitV, b: LitV) -> LitV {
    match (a, b) {
        (LitV::Num(x), LitV::Num(y)) => LitV::Bool(x < y),
        _ => LitV::Bool(false),
    }
}

/// `<=` on two numbers; any other operand pair compares false.
pub open spec fn spec_le(a: LitV, b: LitV) -> LitV {
    match (a, b) {
        (LitV::Num(x), LitV::Num(y)) => LitV::Bool(x <= y),
        _ => LitV::Bool(false),
    }
}

/// `>` on two numbers; any other operand pair compares false.
pub open spec fn spec_gt(a: LitV, b: LitV) -> LitV {
    match (a, b) {
        (LitV::Num(x), LitV::Num(y)) => LitV::Bool(x > y),
        _ => LitV::Bool(false),
    }
}

/// `>=` on two numbers; any other operand pair compares false.
pub open spec fn spec_ge(a: LitV, b: LitV) -> LitV {
    match (a, b) {
        (LitV::Num(x), LitV::Num(y)) => LitV::Bool(x >= y),
        _ => LitV::Bool(false),
    }
}

/// `==`: structural equality of values; values of different kinds are
/// unequal.
pub open spec fn spec_eq_value(a: LitV, b: LitV) -> LitV {
    LitV::Bool(a == b)
}

/// The canonical text of a value: a number's decimal form, `true`/`false`,
/// a string verbatim, and `None` for `Nil`.
pub open spec fn spec_lit_text(v: LitV) -> Seq<char> {
    match v {
        LitV::Num(n) => spec_num_text(n),
        LitV::Bool(b) => if b {
            seq!['t', 'r', 'u', 'e']
        } else {
            seq!['f', 'a', 'l', 's', 'e']
        },
        LitV::Str(s) => s,
        LitV::Nil => seq!['N', 'o', 'n', 'e'],
    }
}

impl Literal {
    pub fn add(self, other: Literal) -> (r: Literal)
        ensures
            r@ == spec_add(self@, other@),
    {
        match (self, other) {
            (Literal::Number(a), Literal::Number(b)) => match a.checked_add(b) {
                Some(c) => Literal::Number(c),
                None => Literal::Nil,
            },
            (Literal::Str(a), Literal::Str(b)) => Literal::Str(a.concat(b.as_str())),
            (Literal::Str(a), Literal::Number(b)) => Literal::Str(
                a.concat(num_to_string(b).as_str()),
            ),
            (Literal::Number(a), Literal::Str(b)) => Literal::Str(
                num_to_string(a).concat(b.as_str()),
            ),
            _ => Literal::Nil,
        }
    }

    pub fn sub(self, other: Literal) -> (r: Literal)
        ensures
            r@ == spec_sub(self@, other@),
    {
        match (self, other) {
            (Literal::Number(a), Literal::Number(b)) => match a.checked_sub(b) {
                Some(c) => Literal::Number(c),
                None => Literal::Nil,
            },
            _ => Literal::Nil,
        }
    }

    pub fn mul(self, other: Literal) -> (r: Literal)
        ensures
            r@ == spec_mul(self@, other@),
    {
        match (self, other) {
            (Literal::Number(a), Literal::Number(b)) => match a.checked_mul(b) {
                Some(c) => Literal::Number(c),
                None => Literal::Nil,
            },
            _ => Literal::Nil,
        }
    }

    pub fn div(self, other: Literal) -> (r: Literal)
        ensures
            r@ == spec_div(self@, other@),
    {
        match (self, other) {
            (Literal::Number(a), Literal::Number(b)) => {
                if b == 0 {
                    Literal::Nil
                } else {
                    let ma: u64 = if a >= 0 {
                        a as u64
                    } else {
                        ((-(a + 1)) as u64) + 1
                    };
                    let mb: u64 = if b >= 0 {
                        b as u64
                    } else {
                        ((-(b + 1)) as u64) + 1
                    };
                    proof {
                        assert(ma as int == abs(a as int));
                        assert(mb as int == abs(b as int));
                    }
                    let q: u64 = ma / mb;
                    if (a < 0) == (b < 0) {
                        if q <= i64::MAX as u64 {
                            Literal::Number(q as i64)
                        } else {
                            Literal::Nil
                        }
                    } else {
                        if q == 0 {
                            Literal::Number(0)
                        } else if q <= i64::MAX as u64 {
                            Literal::Number(-(q as i64))
                        } else {
                            proof {
                                assert(q as int == abs(a as int) / abs(b as int));
                                assert(abs(a as int) <= 9223372036854775808);
                                assert(q == 9223372036854775808u64) by {
                                    vstd::arithmetic::div_mod::lemma_div_nonincreasing(
                                        abs(a as int) as int,
                                        abs(b as int) as int,
                                    );
                                };
                            }
                            Literal::Number(i64::MIN)
                        }
                    }
                }
            },
            _ => Literal::Nil,
        }
    }

    pub fn neg(self) -> (r: Literal)
        ensures
            r@ == spec_neg(self@),
    {
        match self {
            Literal::Number(a) => {
                if a == i64::MIN {
                    Literal::Nil
                } else {
                    Literal::Number(-a)
                }
            },
            _ => Literal::Nil,
        }
    }

    pub fn not(self) -> (r: Literal)
        ensures
            r@ == spec_not(self@),
    {
        match self {
            Literal::Boolean(b) => Literal::Boolean(!b),
            _ => Literal::Boolean(false),
        }
    }

    pub fn lt(self, other: Literal) -> (r: Literal)
        ensures
            r@ == spec_lt(self@, other@),
    {
        match (self, other) {
            (Literal::Number(a), Literal::Number(b)) => Literal::Boolean(a < b),
            _ => Literal::Boolean(false),
        }
    }

    pub fn le(self, other: Literal) -> (r: Literal)
        ensures
            r@ == spec_le(self@, other@),
    {
        match (self, other) {
            (Literal::Number(a), Literal::Number(b)) => Literal::Boolean(a <= b),
            _ => Literal::Boolean(false),
        }
    }

    pub fn gt(self, other: Literal) -> (r: Literal)
        ensures
            r@ == spec_gt(self@, other@),
    {
        match (self, other) {
            (Literal::Number(a), Literal::Number(b)) => Literal::Boolean(a > b),
            _ => Literal::Boolean(false),
        }
    }

    pub fn ge(self, other: Literal) -> (r: Literal)
        ensures
            r@ == spec_ge(self@, other@),
    {
        match (self, other) {
            (Literal::Number(a), Literal::Number(b)) => Literal::Boolean(a >= b),
            _ => Literal::Boolean(false),
        }
    }

    pub fn eq_value(self, other: Literal) -> (r: Literal)
        ensures
            r@ == spec_eq_value(self@, other@),
    {
        match (&self, &other) {
            (Literal::Number(a), Literal::Number(b)) => Literal::Boolean(*a == *b),
            (Literal::Boolean(a), Literal::Boolean(b)) => Literal::Boolean(*a == *b),
            (Literal::Str(a), Literal::Str(b)) => Literal::Boolean(*a == *b),
            (Literal::Nil, Literal::Nil) => Literal::Boolean(true),
            _ => Literal::Boolean(false),
        }
    }

    /// The canonical text of this value, as `print` renders it.
    pub fn to_text(&self) -> (r: String)
        ensures
            r@ == spec_lit_text(self@),
    {
        match self {
            Literal::Number(n) => num_to_string(*n),
            Literal::Boolean(b) => {
                if *b {
                    let s = "true".to_owned();
                    proof {
                        reveal_strlit("true");
                        assert(s@ =~= seq!['t', 'r', 'u', 'e']);
                    }
                    s
                } else {
                    let s = "false".to_owned();
                    proof {
                        reveal_strlit("false");
                        assert(s@ =~= seq!['f', 'a', 'l', 's', 'e']);
                    }
                    s
                }
            },
            Literal::Str(s) => s.clone(),
            Literal::Nil => {
                let s = "None".to_owned();
                proof {
                    reveal_strlit("None");
                    assert(s@ =~= seq!['N', 'o', 'n', 'e']);
                }
                s
            },
        }
    }
}

/// Exponentiation, written `base ** exponent` in the language.
pub trait Pow: Sized {
    type Output;

    /// What `pow` must return.
    spec fn pow_result(self, exponent: Self) -> Self::Output;

    fn pow(self, exponent: Self) -> (r: Self::Output)
        ensures
            r == self.pow_result(exponent),
    ;
}

/// Factorial, written as a postfix `!` in the language.
pub trait Fac: Sized {
    type Output;

    /// What `fac` must return.
    spec fn fac_result(self) -> Self::Output;

    fn fac(self) -> (r: Self::Output)
        ensures
            r == self.fac_result(),
    ;
}

/// Raising a number with magnitude at least two to a higher power at least
/// doubles the magnitude of the result.
proof fn lemma_pow_grows(base: int, i: nat, j: nat)
    requires
        abs(base) >= 2,
        i <= j,
    ensures
        abs(spec_pow(base, i)) <= abs(spec_pow(base, j)),
        i < j ==> 2 * abs(spec_pow(base, i)) <= abs(spec_pow(base, j)),
    decreases j,
{
    if j > i {
        lemma_pow_grows(base, i, (j - 1) as nat);
        let prev = spec_pow(base, (j - 1) as nat);
        assert(spec_pow(base, j) == base * prev);
        assert(abs(base * prev) == abs(base) * abs(prev)) by (nonlinear_arith);
        assert(abs(base) * abs(prev) >= 2 * abs(prev)) by (nonlinear_arith)
            requires
                abs(base) >= 2,
        ;
    }
}

/// The magnitude of a power is positive whenever the base is not zero.
proof fn lemma_pow_positive(base: int, e: nat)
    requires
        base != 0,
    ensures
        abs(spec_pow(base, e)) >= 1,
    decreases e,
{
    if e > 0 {
        lemma_pow_positive(base, (e - 1) as nat);
        let prev = spec_pow(base, (e - 1) as nat);
        assert(abs(base * prev) == abs(base) * abs(prev)) by (nonlinear_arith);
        assert(abs(base) * abs(prev) >= 1) by (nonlinear_arith)
            requires
                abs(base) >= 1 && abs(prev) >= 1,
        ;
    }
}

/// The factorial never shrinks as its argument grows.
proof fn lemma_fact_mono(i: nat, j: nat)
    requires
        i <= j,
    ensures
        spec_fact(i) <= spec_fact(j),
        spec_fact(j) >= 1,
    decreases j,
{
    if j == 0 {
    } else if i == j {
        lemma_fact_mono(0, (j - 1) as nat);
        assert(spec_fact(j) == j * spec_fact((j - 1) as nat));
        assert(j * spec_fact((j - 1) as nat) >= spec_fact((j - 1) as nat)) by (nonlinear_arith)
            requires
                j >= 1 && spec_fact((j - 1) as nat) >= 1,
        ;
    } else {
        lemma_fact_mono(i, (j - 1) as nat);
        assert(spec_fact(j) == j * spec_fact((j - 1) as nat));
        assert(j * spec_fact((j - 1) as nat) >= spec_fact((j - 1) as nat)) by (nonlinear_arith)
            requires
                j >= 1 && spec_fact((j - 1) as nat) >= 1,
        ;
    }
}

impl Pow for Literal {
    type Output = Literal;

    open spec fn pow_result(self, exponent: Literal) -> Literal {
        match (self, exponent) {
            (Literal::Number(a), Literal::Number(b)) => {
                if b < 0 {
                    Literal::Nil
                } else if in_i64(spec_pow(a as int, b as nat)) {
                    Literal::Number(spec_pow(a as int, b as nat) as i64)
                } else {
                    Literal::Nil
                }
            },
            _ => Literal::Nil,
        }
    }

    fn pow(self, exponent: Literal) -> (r: Literal) {
        match (self, exponent) {
            (Literal::Number(a), Literal::Number(b)) => {
                if b < 0 {
                    Literal::Nil
                } else {
                    let e = b as u64;
                    let mut acc: i64 = 1;
                    let mut i: u64 = 0;
                    while i < e
                        invariant
                            i <= e,
                            e == b,
                            b >= 0,
                            self == Literal::Number(a),
                            exponent == Literal::Number(b),
                            acc as int == spec_pow(a as int, i as nat),
                        decreases e - i,
                    {
                        match acc.checked_mul(a) {
                            Some(c) => {
                                proof {
                                    assert(spec_pow(a as int, (i + 1) as nat) == a as int
                                        * spec_pow(a as int, i as nat));
                                }
                                acc = c;
                                i = i + 1;
                            },
                            None => {
                                proof {
                                    let base = a as int;
                                    let over = spec_pow(base, (i + 1) as nat);
                                    assert(over == base * spec_pow(base, i as nat));
                                    assert(over == base * (acc as int));
                                    assert(!in_i64(over));
                                    if a == 0 {
                                        assert(base * (acc as int) == 0) by (nonlinear_arith)
                                            requires
                                                base == 0,
                                        ;
                                    } else if a == 1 || a == -1 {
                                        lemma_pow_abs_one(base, (i + 1) as nat);
                                    }
                                    assert(abs(base) >= 2);
                                    assert(abs(over) >= 9223372036854775808);
                                    lemma_pow_grows(base, (i + 1) as nat, b as nat);
                                    if ((i + 1) as nat) < (b as nat) {
                                        assert(abs(spec_pow(base, b as nat))
                                            >= 2 * 9223372036854775808);
                                    }
                                    assert(!in_i64(spec_pow(base, b as nat)));
                                }
                                return Literal::Nil;
                            },
                        }
                    }
                    Literal::Number(acc)
                }
            },
            _ => Literal::Nil,
        }
    }
}

/// Powers of one and of minus one keep magnitude one.
proof fn lemma_pow_abs_one(base: int, e: nat)
    requires
        abs(base) == 1,
    ensures
        abs(spec_pow(base, e)) == 1,
    decreases e,
{
    if e > 0 {
        lemma_pow_abs_one(base, (e - 1) as nat);
        let prev = spec_pow(base, (e - 1) as nat);
        assert(abs(base * prev) == abs(base) * abs(prev)) by (nonlinear_arith);
    }
}

impl Fac for Literal {
    type Output = Literal;

    open spec fn fac_result(self) -> Literal {
        match self {
            Literal::Number(a) => {
                if a < 1 {
                    Literal::Number(0)
                } else if spec_fact(a as nat) <= i64::MAX {
                    Literal::Number(spec_fact(a as nat) as i64)
                } else {
                    Literal::Nil
                }
            },
            _ => Literal::Nil,
        }
    }

    fn fac(self) -> (r: Literal) {
        match self {
            Literal::Number(a) => {
                if a < 1 {
                    Literal::Number(0)
                } else {
                    let mut result: i64 = 1;
                    let mut i: i64 = 1;
                    proof {
                        assert(spec_fact(0) == 1);
                        assert(spec_fact(1) == 1 * spec_fact(0));
                    }
                    while i < a
                        invariant
                            1 <= i <= a,
                            self == Literal::Number(a),
                            result as int == spec_fact(i as nat),
                            result >= 1,
                        decreases a - i,
                    {
                        match result.checked_mul(i + 1) {
                            Some(c) => {
                                proof {
                                    assert(spec_fact((i + 1) as nat) == (i + 1)
                                        * spec_fact(i as nat));
                                    assert(c >= 1) by (nonlinear_arith)
                                        requires
                                            result >= 1 && i >= 1 && c == result * (i + 1),
                                    ;
                                }
                                result = c;
                                i = i + 1;
                            },
                            None => {
                                proof {
                                    assert(spec_fact((i + 1) as nat) == (i + 1)
                                        * spec_fact(i as nat));
                                    assert(result * (i + 1) >= 0) by (nonlinear_arith)
                                        requires
                                            result >= 1 && i >= 1,
                                    ;
                                    assert(spec_fact((i + 1) as nat) > i64::MAX);
                                    lemma_fact_mono((i + 1) as nat, a as nat);
                                    assert(spec_fact(a as nat) > i64::MAX);
                                }
                                return Literal::Nil;
                            },
                        }
                    }
                    Literal::Number(result)
                }
            },
            _ => Literal::Nil,
        }
    }
}

} // verus!
