//! The interpreter and formatter: evaluates the expression tree by
//! post-order recursion over exact rational values, and renders the
//! final value as a decimal string.
//!
//! A value is held as a fraction of two 64-bit integers with a positive
//! denominator; every operation is exact, and a result whose numerator
//! or denominator escapes that range is reported as `Overflow`.

use vstd::prelude::*;

use crate::error::{result_view, Error, ErrorV};
use crate::parser::{
    ast_wf, lemma_parse_lone_number, lemma_parse_signed_number, operator_token, parse, spec_parse,
    zero_token, Ast, AstV, Node, NodeV,
};
use crate::tokenizer::{
    dot_count, key_kind, lemma_tokenize_wf, spec_tokenize, tokenize, valid_number_keys, Key, Kind,
    Token, TokenV,
};

verus! {

/// An exact rational value: `num / den`, with `den` positive.
#[derive(Clone, Copy, Debug, PartialEq, Eq, Structural)]
pub struct Value {
    pub num: i64,
    pub den: i64,
}

impl View for Value {
    type V = Value;

    open spec fn view(&self) -> Value {
        *self
    }
}

impl DeepView for Value {
    type V = Value;

    open spec fn deep_view(&self) -> Value {
        *self
    }
}

impl Value {
    /// The representation invariant: the denominator is positive.
    pub open spec fn wf(self) -> bool {
        self.den > 0
    }

    /// Whether two values denote the same rational number.
    pub fn eqv(&self, other: &Value) -> (r: bool)
        requires
            self.wf(),
            other.wf(),
        ensures
            r == (self.num * other.den == other.num * self.den),
    {
        mul_i64(self.num, other.den) == mul_i64(other.num, self.den)
    }
}

/// Whether a mathematical integer fits the numerator/denominator range.
pub open spec fn fits_i64(x: int) -> bool {
    i64::MIN <= x <= i64::MAX
}

fn mul_i64(x: i64, y: i64) -> (r: i128)
    ensures
        r as int == x as int * y as int,
        -85070591730234615865843651857942052864 <= r as int
            <= 85070591730234615865843651857942052864,
{
    proof {
        assert((x as int) * (y as int) <= 85070591730234615865843651857942052864 && (x as int) * (
        y as int) >= -85070591730234615865843651857942052864) by (nonlinear_arith)
            requires
                -0x8000000000000000 <= x as int <= 0x7fffffffffffffff,
                -0x8000000000000000 <= y as int <= 0x7fffffffffffffff,
        ;
    }
    (x as i128) * (y as i128)
}

fn make_value(n: i128, d: i128) -> (r: Result<Value, Error>)
    ensures
        result_view(r) == (if fits_i64(n as int) && fits_i64(d as int) {
            Ok::<Value, ErrorV>(Value { num: n as i64, den: d as i64 })
        } else {
            Err::<Value, ErrorV>(ErrorV::Overflow)
        }),
{
    if n >= -0x8000000000000000i128 && n <= 0x7fffffffffffffffi128 && d
        >= -0x8000000000000000i128 && d <= 0x7fffffffffffffffi128 {
        Ok(Value { num: n as i64, den: d as i64 })
    } else {
        Err(Error::Overflow)
    }
}

/// The exact product of two values, or `Overflow`.
pub open spec fn spec_multiplication(value_a: Value, value_b: Value) -> Result<Value, ErrorV> {
    let n = value_a.num * value_b.num;
    let d = value_a.den * value_b.den;
    if fits_i64(n) && fits_i64(d) {
        Ok(Value { num: n as i64, den: d as i64 })
    } else {
        Err(ErrorV::Overflow)
    }
}

/// The exact quotient of two values: `DivisionByZero` when the divisor
/// denotes zero, `Overflow` when the result escapes the range. The
/// result's denominator is kept positive by moving the divisor's sign
/// to the numerator.
pub open spec fn spec_division(value_a: Value, value_b: Value) -> Result<Value, ErrorV> {
    if value_b.num == 0 {
        Err(ErrorV::DivisionByZero)
    } else {
        let n0 = value_a.num * value_b.den;
        let d0 = value_a.den * value_b.num;
        let n = if d0 < 0 {
            -n0
        } else {
            n0
        };
        let d = if d0 < 0 {
            -d0
        } else {
            d0
        };
        if fits_i64(n) && fits_i64(d) {
            Ok(Value { num: n as i64, den: d as i64 })
        } else {
            Err(ErrorV::Overflow)
        }
    }
}

/// The exact sum of two values, or `Overflow`.
pub open spec fn spec_addition(value_a: Value, value_b: Value) -> Result<Value, ErrorV> {
    let n = value_a.num * value_b.den + value_b.num * value_a.den;
    let d = value_a.den * value_b.den;
    if fits_i64(n) && fits_i64(d) {
        Ok(Value { num: n as i64, den: d as i64 })
    } else {
        Err(ErrorV::Overflow)
    }
}

/// The exact difference of two values, or `Overflow`.
pub open spec fn spec_subtraction(value_a: Value, value_b: Value) -> Result<Value, ErrorV> {
    let n = value_a.num * value_b.den - value_b.num * value_a.den;
    let d = value_a.den * value_b.den;
    if fits_i64(n) && fits_i64(d) {
        Ok(Value { num: n as i64, den: d as i64 })
    } else {
        Err(ErrorV::Overflow)
    }
}

proof fn lemma_pos_product(x: int, y: int)
    by (nonlinear_arith)
    requires
        x > 0,
        y > 0,
    ensures
        x * y > 0,
{
}

/// Multiplies two values exactly; see `spec_multiplication`.
pub fn multiplication(value_a: Value, value_b: Value) -> (r: Result<Value, Error>)
    requires
        value_a.wf(),
        value_b.wf(),
    ensures
        result_view(r) == spec_multiplication(value_a, value_b),
        r matches Ok(v) ==> v.wf(),
{
    proof {
        lemma_pos_product(value_a.den as int, value_b.den as int);
    }
    make_value(mul_i64(value_a.num, value_b.num), mul_i64(value_a.den, value_b.den))
}

/// Divides two values exactly; see `spec_division`.
pub fn division(value_a: Value, value_b: Value) -> (r: Result<Value, Error>)
    requires
        value_a.wf(),
        value_b.wf(),
    ensures
        result_view(r) == spec_division(value_a, value_b),
        r matches Ok(v) ==> v.wf(),
{
    if value_b.num == 0 {
        return Err(Error::DivisionByZero);
    }
    let n0 = mul_i64(value_a.num, value_b.den);
    let d0 = mul_i64(value_a.den, value_b.num);
    proof {
        if value_b.num > 0 {
            lemma_pos_product(value_a.den as int, value_b.num as int);
        } else {
            lemma_pos_product(value_a.den as int, -(value_b.num as int));
            assert((value_a.den as int) * (-(value_b.num as int)) == -((value_a.den as int) * (
            value_b.num as int))) by (nonlinear_arith);
        }
    }
    let n = if d0 < 0 {
        -n0
    } else {
        n0
    };
    let d = if d0 < 0 {
        -d0
    } else {
        d0
    };
    make_value(n, d)
}

/// Adds two values exactly; see `spec_addition`.
pub fn addition(value_a: Value, value_b: Value) -> (r: Result<Value, Error>)
    requires
        value_a.wf(),
        value_b.wf(),
    ensures
        result_view(r) == spec_addition(value_a, value_b),
        r matches Ok(v) ==> v.wf(),
{
    proof {
        lemma_pos_product(value_a.den as int, value_b.den as int);
    }
    let p1 = mul_i64(value_a.num, value_b.den);
    let p2 = mul_i64(value_b.num, value_a.den);
    proof {
        lemma_num_den_product_bound(value_a.num as int, value_b.den as int);
        lemma_num_den_product_bound(value_b.num as int, value_a.den as int);
    }
    make_value(p1 + p2, mul_i64(value_a.den, value_b.den))
}

proof fn lemma_num_den_product_bound(x: int, y: int)
    requires
        -0x8000000000000000 <= x <= 0x7fffffffffffffff,
        0 < y <= 0x7fffffffffffffff,
    ensures
        -85070591730234615856620279821087277056 <= x * y
            <= 85070591730234615856620279821087277056,
{
    let m: int = 0x8000000000000000;
    assert(x * y <= m * y && x * y >= -(m * y)) by (nonlinear_arith)
        requires
            -m <= x <= m,
            y > 0,
    ;
    assert(m * y <= m * (m - 1)) by (nonlinear_arith)
        requires
            0 < y <= m - 1,
            m == 0x8000000000000000,
    ;
    assert(m * (m - 1) == 85070591730234615856620279821087277056) by (nonlinear_arith)
        requires
            m == 0x8000000000000000,
    ;
}

/// The numeric value of a digit key; zero for any other key.
pub open spec fn digit_value(k: Key) -> int {
    match k {
        Key::Zero => 0,
        Key::One => 1,
        Key::Two => 2,
        Key::Three => 3,
        Key::Four => 4,
        Key::Five => 5,
        Key::Six => 6,
        Key::Seven => 7,
        Key::Eight => 8,
        Key::Nine => 9,
        _ => 0,
    }
}

/// The integer read from a numeral's digits, the dot ignored: the
/// digits of `12.5` denote `125`.
pub open spec fn keys_int(ks: Seq<Key>) -> int
    decreases ks.len(),
{
    if ks.len() == 0 {
        0
    } else if ks.last() == Key::Dot {
        keys_int(ks.drop_last())
    } else {
        10 * keys_int(ks.drop_last()) + digit_value(ks.last())
    }
}

/// The number of digits after the dot; zero when there is no dot.
pub open spec fn frac_len(ks: Seq<Key>) -> int
    decreases ks.len(),
{
    if ks.len() == 0 {
        0
    } else if ks.last() == Key::Dot {
        0
    } else if dot_count(ks.drop_last()) > 0 {
        1 + frac_len(ks.drop_last())
    } else {
        0
    }
}

/// Ten to the given power (one for non-positive exponents).
pub open spec fn pow10(n: int) -> int
    decreases n,
{
    if n <= 0 {
        1
    } else {
        10 * pow10(n - 1)
    }
}

/// The value denoted by a token: a number token `d₁…dₘ.f₁…fₙ` denotes
/// the fraction of its digits over ten to the number of fractional
/// digits; a token of any other kind is `TokenNaN`; a numeral whose
/// numerator or denominator escapes the 64-bit range is `Overflow`.
pub open spec fn spec_to_value(t: TokenV) -> Result<Value, ErrorV> {
    if t.kind != Kind::Number {
        Err(ErrorV::TokenNaN)
    } else {
        let n = keys_int(t.keys);
        let d = pow10(frac_len(t.keys));
        if fits_i64(n) && fits_i64(d) {
            Ok(Value { num: n as i64, den: d as i64 })
        } else {
            Err(ErrorV::Overflow)
        }
    }
}

/// Whether every key of the sequence is a digit or the dot.
pub open spec fn digit_dot_keys(ks: Seq<Key>) -> bool {
    forall|i: int|
        0 <= i < ks.len() ==> key_kind(#[trigger] ks[i]) == Kind::Digit || ks[i] == Key::Dot
}

proof fn lemma_keys_int_nonneg(ks: Seq<Key>)
    ensures
        keys_int(ks) >= 0,
    decreases ks.len(),
{
    if ks.len() > 0 {
        lemma_keys_int_nonneg(ks.drop_last());
        if ks.last() != Key::Dot {
            assert(10 * keys_int(ks.drop_last()) >= keys_int(ks.drop_last()));
        }
    }
}

proof fn lemma_keys_int_prefix(ks: Seq<Key>, i: int)
    requires
        0 <= i <= ks.len(),
    ensures
        keys_int(ks.take(i)) <= keys_int(ks),
    decreases ks.len() - i,
{
    if i < ks.len() {
        lemma_keys_int_prefix(ks, i + 1);
        let p = ks.take(i + 1);
        assert(p.drop_last() =~= ks.take(i));
        lemma_keys_int_nonneg(ks.take(i));
        if p.last() != Key::Dot {
            assert(10 * keys_int(ks.take(i)) >= keys_int(ks.take(i)));
        }
    } else {
        assert(ks.take(i) =~= ks);
    }
}

proof fn lemma_frac_len_nonneg(ks: Seq<Key>)
    ensures
        frac_len(ks) >= 0,
    decreases ks.len(),
{
    if ks.len() > 0 {
        lemma_frac_len_nonneg(ks.drop_last());
    }
}

proof fn lemma_pow10_pos(n: int)
    ensures
        pow10(n) >= 1,
    decreases n,
{
    if n > 0 {
        lemma_pow10_pos(n - 1);
    }
}

proof fn lemma_pow10_mono(a: int, b: int)
    requires
        a <= b,
    ensures
        pow10(a) <= pow10(b),
    decreases b - a,
{
    if a < b {
        lemma_pow10_mono(a, b - 1);
        lemma_pow10_pos(b - 1);
    }
}

proof fn lemma_dot_count_take_le(ks: Seq<Key>, i: int)
    requires
        0 <= i <= ks.len(),
    ensures
        dot_count(ks.take(i)) <= dot_count(ks),
    decreases ks.len() - i,
{
    if i < ks.len() {
        lemma_dot_count_take_le(ks, i + 1);
        assert(ks.take(i + 1).drop_last() =~= ks.take(i));
    } else {
        assert(ks.take(i) =~= ks);
    }
}

proof fn lemma_frac_len_prefix(ks: Seq<Key>, i: int)
    requires
        0 <= i <= ks.len(),
        dot_count(ks) <= 1,
    ensures
        frac_len(ks.take(i)) <= frac_len(ks),
    decreases ks.len() - i,
{
    if i < ks.len() {
        lemma_frac_len_prefix(ks, i + 1);
        let p = ks.take(i + 1);
        assert(p.drop_last() =~= ks.take(i));
        lemma_frac_len_nonneg(ks.take(i));
        lemma_frac_len_nonneg(ks);
        lemma_dot_count_nonneg(ks.take(i));
        if p.last() == Key::Dot {
            lemma_dot_count_take_le(ks, i + 1);
            assert(dot_count(ks.take(i)) <= 0);
            lemma_frac_len_no_dot(ks.take(i));
        } else if dot_count(ks.take(i)) > 0 {
        } else {
            lemma_frac_len_no_dot(ks.take(i));
        }
    } else {
        assert(ks.take(i) =~= ks);
    }
}

proof fn lemma_frac_len_no_dot(ks: Seq<Key>)
    requires
        dot_count(ks) <= 0,
    ensures
        frac_len(ks) == 0,
{
    if ks.len() > 0 {
        lemma_dot_count_nonneg(ks.drop_last());
    }
}

proof fn lemma_dot_count_nonneg(ks: Seq<Key>)
    ensures
        dot_count(ks) >= 0,
    decreases ks.len(),
{
    if ks.len() > 0 {
        lemma_dot_count_nonneg(ks.drop_last());
    }
}

fn digit_of(k: Key) -> (r: i64)
    requires
        key_kind(k) == Kind::Digit,
    ensures
        r as int == digit_value(k),
        0 <= r <= 9,
{
    match k {
        Key::Zero => 0,
        Key::One => 1,
        Key::Two => 2,
        Key::Three => 3,
        Key::Four => 4,
        Key::Five => 5,
        Key::Six => 6,
        Key::Seven => 7,
        Key::Eight => 8,
        _ => 9,
    }
}

/// Reads a number token into a value; see `spec_to_value`.
pub fn to_value(token: Token) -> (r: Result<Value, Error>)
    requires
        token@.kind == Kind::Number ==> valid_number_keys(token@.keys),
    ensures
        result_view(r) == spec_to_value(token@),
        r matches Ok(v) ==> v.wf(),
{
    if !(token.kind == Kind::Number) {
        return Err(Error::TokenNaN);
    }
    let ghost ks = token@.keys;
    let n = token.keys.len();
    let mut num: i64 = 0;
    let mut den: i64 = 1;
    let mut seen_dot = false;
    let mut i: usize = 0;
    proof {
        assert(ks.take(0) =~= Seq::<Key>::empty());
    }
    while i < n
        invariant
            i <= n,
            n == ks.len(),
            ks == token@.keys,
            token@.kind == Kind::Number,
            valid_number_keys(ks),
            0 <= num,
            num as int == keys_int(ks.take(i as int)),
            1 <= den,
            den as int == pow10(frac_len(ks.take(i as int))),
            seen_dot == (dot_count(ks.take(i as int)) > 0),
        decreases n - i,
    {
        let k = token.keys[i];
        proof {
            assert(ks.take(i + 1).drop_last() =~= ks.take(i as int));
            assert(ks.take(i + 1).last() == ks[i as int]);
            lemma_dot_count_nonneg(ks.take(i as int));
            lemma_frac_len_nonneg(ks.take(i as int));
        }
        if k == Key::Dot {
            proof {
                lemma_dot_count_take_le(ks, i + 1);
                assert(dot_count(ks.take(i as int)) == 0);
                lemma_frac_len_no_dot(ks.take(i as int));
            }
            seen_dot = true;
        } else {
            proof {
                assert(key_kind(ks[i as int]) == Kind::Digit);
            }
            let dv = digit_of(k);
            if num > 922337203685477580 || (num == 922337203685477580 && dv > 7) {
                proof {
                    lemma_keys_int_prefix(ks, i + 1);
                }
                return Err(Error::Overflow);
            }
            num = num * 10 + dv;
            if seen_dot {
                if den > 922337203685477580 {
                    proof {
                        lemma_frac_len_prefix(ks, i + 1);
                        lemma_pow10_mono(frac_len(ks.take(i + 1)), frac_len(ks));
                    }
                    return Err(Error::Overflow);
                }
                den = den * 10;
            } else {
                proof {
                    lemma_frac_len_no_dot(ks.take(i + 1));
                }
            }
        }
        i = i + 1;
    }
    proof {
        assert(ks.take(n as int) =~= ks);
    }
    Ok(Value { num, den })
}

/// Subtracts two values exactly; see `spec_subtraction`.
pub fn subtraction(value_a: Value, value_b: Value) -> (r: Result<Value, Error>)
    requires
        value_a.wf(),
        value_b.wf(),
    ensures
        result_view(r) == spec_subtraction(value_a, value_b),
        r matches Ok(v) ==> v.wf(),
{
    proof {
        lemma_pos_product(value_a.den as int, value_b.den as int);
    }
    let p1 = mul_i64(value_a.num, value_b.den);
    let p2 = mul_i64(value_b.num, value_a.den);
    proof {
        lemma_num_den_product_bound(value_a.num as int, value_b.den as int);
        lemma_num_den_product_bound(value_b.num as int, value_a.den as int);
    }
    make_value(p1 - p2, mul_i64(value_a.den, value_b.den))
}

/// The operation that an operator token's key selects, applied to two
/// values; a token that is no operator is `TokenNaO`.
pub open spec fn spec_basic_operation(operator: TokenV, value_a: Value, value_b: Value) -> Result<
    Value,
    ErrorV,
> {
    if operator.keys.len() == 0 {
        Err(ErrorV::TokenNaO)
    } else {
        match operator.keys[0] {
            Key::Multiplication => spec_multiplication(value_a, value_b),
            Key::Division => spec_division(value_a, value_b),
            Key::Addition => spec_addition(value_a, value_b),
            Key::Subtraction => spec_subtraction(value_a, value_b),
            _ => Err(ErrorV::TokenNaO),
        }
    }
}

/// Applies the operation selected by an operator token; see
/// `spec_basic_operation`.
pub fn basic_operation(operator: Token, value_a: Value, value_b: Value) -> (r: Result<
    Value,
    Error,
>)
    requires
        operator@.keys.len() > 0,
        value_a.wf(),
        value_b.wf(),
    ensures
        result_view(r) == spec_basic_operation(operator@, value_a, value_b),
        r matches Ok(v) ==> v.wf(),
{
    match operator.keys[0] {
        Key::Multiplication => multiplication(value_a, value_b),
        Key::Division => division(value_a, value_b),
        Key::Addition => addition(value_a, value_b),
        Key::Subtraction => subtraction(value_a, value_b),
        _ => Err(Error::TokenNaO),
    }
}

/// The value of an expression tree, by post-order recursion: each
/// operand slot is evaluated (a leaf through `spec_to_value`, a subtree
/// recursively, an unset slot as `InvalidOperand`), and the operator
/// token's operation combines the two results.
pub open spec fn spec_interpret(a: AstV) -> Result<Value, ErrorV>
    decreases a,
{
    let ra = match a.operand_a {
        None => Err(ErrorV::InvalidOperand),
        Some(NodeV::Ast(b)) => spec_interpret(*b),
        Some(NodeV::Token(t)) => spec_to_value(t),
    };
    match ra {
        Err(e) => Err(e),
        Ok(value_a) => {
            let rb = match a.operand_b {
                None => Err(ErrorV::InvalidOperand),
                Some(NodeV::Ast(b)) => spec_interpret(*b),
                Some(NodeV::Token(t)) => spec_to_value(t),
            };
            match rb {
                Err(e) => Err(e),
                Ok(value_b) => match a.operator {
                    None => Err(ErrorV::TokenNaO),
                    Some(op) => spec_basic_operation(op, value_a, value_b),
                },
            }
        },
    }
}

/// Evaluates an expression tree to a value; see `spec_interpret`.
pub fn interpret(ast: Ast) -> (r: Result<Value, Error>)
    requires
        ast_wf(ast@),
    ensures
        result_view(r) == spec_interpret(ast@),
        r matches Ok(v) ==> v.wf(),
    decreases ast,
{
    let ghost av = ast@;
    let Ast { operator, operand_a, operand_b } = ast;

    let value_a = match operand_a {
        Some(Node::Ast(boxed_ast)) => match interpret(*boxed_ast) {
            Ok(v) => v,
            Err(e) => {
                return Err(e);
            },
        },
        Some(Node::Token(token)) => match to_value(token) {
            Ok(v) => v,
            Err(e) => {
                return Err(e);
            },
        },
        None => {
            return Err(Error::InvalidOperand);
        },
    };

    let value_b = match operand_b {
        Some(Node::Ast(boxed_ast)) => match interpret(*boxed_ast) {
            Ok(v) => v,
            Err(e) => {
                return Err(e);
            },
        },
        Some(Node::Token(token)) => match to_value(token) {
            Ok(v) => v,
            Err(e) => {
                return Err(e);
            },
        },
        None => {
            return Err(Error::InvalidOperand);
        },
    };

    match operator {
        None => Err(Error::TokenNaO),
        Some(op) => basic_operation(op, value_a, value_b),
    }
}

/// The longest fractional expansion that the formatter renders. Every
/// terminating decimal expansion of a value in range is shorter, so
/// only a non-terminating expansion is cut off here.
pub const FRAC_DIGIT_LIMIT: usize = 64;

/// The character of a decimal digit.
pub open spec fn digit_char(x: int) -> char {
    if x == 1 {
        '1'
    } else if x == 2 {
        '2'
    } else if x == 3 {
        '3'
    } else if x == 4 {
        '4'
    } else if x == 5 {
        '5'
    } else if x == 6 {
        '6'
    } else if x == 7 {
        '7'
    } else if x == 8 {
        '8'
    } else if x == 9 {
        '9'
    } else {
        '0'
    }
}

/// The decimal digits of a non-negative integer, most significant
/// first.
pub open spec fn int_digits(q: int) -> Seq<char>
    decreases q,
{
    if q < 10 {
        seq![digit_char(q)]
    } else {
        int_digits(q / 10) + seq![digit_char(q % 10)]
    }
}

/// The digits of the decimal expansion of `r / d` (with `0 < r < d`),
/// by long division, up to the given number of digits: the expansion
/// stops at a zero remainder or when the digits run out.
pub open spec fn frac_digit_seq(r: int, d: int, fuel: nat) -> Seq<char>
    decreases fuel,
{
    if r <= 0 || fuel == 0 {
        Seq::empty()
    } else {
        seq![digit_char((r * 10) / d)] + frac_digit_seq((r * 10) % d, d, (fuel - 1) as nat)
    }
}

/// The decimal rendering of a value: its sign, the integer part, and —
/// when the value is not integral — a dot and the fractional expansion
/// (cut off after `FRAC_DIGIT_LIMIT` digits when it does not
/// terminate).
pub open spec fn spec_format(v: Value) -> Seq<char> {
    let a = if v.num < 0 {
        -(v.num as int)
    } else {
        v.num as int
    };
    let d = v.den as int;
    let sign: Seq<char> = if v.num < 0 {
        seq!['-']
    } else {
        Seq::empty()
    };
    if a % d == 0 {
        sign + int_digits(a / d)
    } else {
        sign + int_digits(a / d) + seq!['.'] + frac_digit_seq(a % d, d, FRAC_DIGIT_LIMIT as nat)
    }
}

fn digit_str(x: u64) -> (r: &'static str)
    requires
        x < 10,
    ensures
        r@ == seq![digit_char(x as int)],
{
    let lit: &'static str = match x {
        0 => "0",
        1 => "1",
        2 => "2",
        3 => "3",
        4 => "4",
        5 => "5",
        6 => "6",
        7 => "7",
        8 => "8",
        _ => "9",
    };
    proof {
        reveal_strlit("0");
        reveal_strlit("1");
        reveal_strlit("2");
        reveal_strlit("3");
        reveal_strlit("4");
        reveal_strlit("5");
        reveal_strlit("6");
        reveal_strlit("7");
        reveal_strlit("8");
        reveal_strlit("9");
        assert(lit@ =~= seq![digit_char(x as int)]);
    }
    lit
}

fn int_str(q: u64) -> (r: String)
    ensures
        r@ == int_digits(q as int),
    decreases q,
{
    if q < 10 {
        digit_str(q).to_owned()
    } else {
        let mut s = int_str(q / 10);
        s.append(digit_str(q % 10));
        s
    }
}

fn abs_u64(x: i64) -> (r: u64)
    ensures
        r as int == if x < 0 {
            -(x as int)
        } else {
            x as int
        },
{
    if x >= 0 {
        x as u64
    } else {
        ((-(x + 1)) as u64) + 1
    }
}

/// Renders a value as its decimal string; see `spec_format`.
pub fn format(value: Value) -> (r: String)
    requires
        value.wf(),
    ensures
        r@ == spec_format(value),
{
    let ghost av: int = if value.num < 0 {
        -(value.num as int)
    } else {
        value.num as int
    };
    let a = abs_u64(value.num);
    let d = value.den as u64;
    let q = a / d;
    let rem = a % d;
    let mut s = String::new();
    if value.num < 0 {
        s.append("-");
    }
    proof {
        reveal_strlit("-");
        if value.num < 0 {
            assert(s@ =~= seq!['-']);
        }
    }
    let ghost sign: Seq<char> = if value.num < 0 {
        seq!['-']
    } else {
        Seq::empty()
    };
    let intpart = int_str(q);
    s.append(intpart.as_str());
    proof {
        assert(s@ =~= sign + int_digits(av / (d as int)));
    }
    if rem == 0 {
        return s;
    }
    s.append(".");
    proof {
        reveal_strlit(".");
        assert(s@ =~= sign + int_digits(av / (d as int)) + seq!['.']);
    }
    let ghost base = s@;
    let ghost rem0: int = rem as int;
    let mut rr: u128 = rem as u128;
    let dd: u128 = d as u128;
    let mut count: usize = 0;
    proof {
        assert(base + frac_digit_seq(rem0, d as int, (FRAC_DIGIT_LIMIT - 0) as nat) =~= s@
            + frac_digit_seq(rr as int, d as int, (FRAC_DIGIT_LIMIT - 0) as nat));
    }
    while rr != 0 && count < FRAC_DIGIT_LIMIT
        invariant
            count <= FRAC_DIGIT_LIMIT,
            dd == d as u128,
            dd > 0,
            rr < dd,
            base + frac_digit_seq(rem0, d as int, FRAC_DIGIT_LIMIT as nat) == s@ + frac_digit_seq(
                rr as int,
                d as int,
                (FRAC_DIGIT_LIMIT - count) as nat,
            ),
        decreases FRAC_DIGIT_LIMIT - count,
    {
        let ghost s0 = s@;
        let ghost rr0: int = rr as int;
        let ghost fuel0: nat = (FRAC_DIGIT_LIMIT - count) as nat;
        let rr10 = rr * 10;
        let dig = rr10 / dd;
        proof {
            assert(dig < 10) by (nonlinear_arith)
                requires
                    dig == rr10 / dd,
                    rr10 < 10 * dd,
                    dd > 0,
            ;
        }
        s.append(digit_str(dig as u64));
        rr = rr10 % dd;
        count = count + 1;
        proof {
            assert(rr < dd) by (nonlinear_arith)
                requires
                    rr == rr10 % dd,
                    dd > 0,
            ;
            assert(frac_digit_seq(rr0, d as int, fuel0) =~= seq![digit_char((rr0 * 10) / (
            d as int))] + frac_digit_seq((rr0 * 10) % (d as int), d as int, (fuel0 - 1) as nat));
            assert(s@ =~= s0 + seq![digit_char((rr0 * 10) / (d as int))]);
            assert(base + frac_digit_seq(rem0, d as int, FRAC_DIGIT_LIMIT as nat) =~= s@
                + frac_digit_seq(rr as int, d as int, (FRAC_DIGIT_LIMIT - count) as nat));
        }
    }
    proof {
        assert(frac_digit_seq(rr as int, d as int, (FRAC_DIGIT_LIMIT - count) as nat)
            =~= Seq::<char>::empty());
        assert(s@ =~= base + frac_digit_seq(rem0, d as int, FRAC_DIGIT_LIMIT as nat));
        assert(s@ =~= spec_format(value));
    }
    s
}

/// The whole pipeline: text to tokens to tree to value to text. The
/// first failing stage's error is surfaced verbatim.
pub open spec fn spec_run(s: Seq<char>) -> Result<Seq<char>, ErrorV> {
    match spec_parse(spec_tokenize(s)) {
        Err(e) => Err(e),
        Ok(ast) => match spec_interpret(ast) {
            Err(e) => Err(e),
            Ok(v) => Ok(spec_format(v)),
        },
    }
}

/// Evaluates a formula: tokenize, parse, interpret, format; see
/// `spec_run`.
pub fn run(formula: String) -> (r: Result<String, Error>)
    ensures
        result_view(r) == spec_run(formula@),
{
    let ghost s = formula@;
    let tokens = tokenize(formula);
    proof {
        lemma_tokenize_wf(s);
    }
    let ast = match parse(tokens) {
        Err(e) => {
            return Err(e);
        },
        Ok(a) => a,
    };
    let v = match interpret(ast) {
        Err(e) => {
            return Err(e);
        },
        Ok(v) => v,
    };
    Ok(format(v))
}

/// A lone numeral and its signed forms share one tree shape and
/// evaluate to the same magnitude, with the sign applied: parsing the
/// token sequences `N`, `+ N` and `- N` yields trees whose values are
/// `v`, `v` and `-v`, where `v` is the numeral's value.
pub proof fn lemma_signed_literal_magnitude(t: TokenV)
    requires
        t.kind == Kind::Number,
        spec_to_value(t) is Ok,
    ensures
        ({
            let v = spec_to_value(t)->Ok_0;
            &&& spec_parse(Ok(seq![t])) matches Ok(a) && spec_interpret(a) == Ok::<
                Value,
                ErrorV,
            >(v)
            &&& spec_parse(Ok(seq![operator_token(Key::Addition), t])) matches Ok(a)
                && spec_interpret(a) == Ok::<Value, ErrorV>(v)
            &&& spec_parse(Ok(seq![operator_token(Key::Subtraction), t])) matches Ok(a)
                && spec_interpret(a) == Ok::<Value, ErrorV>(
                Value { num: (-(v.num as int)) as i64, den: v.den },
            )
        }),
{
    let v = spec_to_value(t)->Ok_0;
    lemma_parse_lone_number(t);
    lemma_parse_signed_number(Key::Addition, t);
    lemma_parse_signed_number(Key::Subtraction, t);

    let zk: Seq<Key> = seq![Key::Zero];
    assert(zk.drop_last() =~= Seq::<Key>::empty());
    assert(zk.last() == Key::Zero);
    assert(keys_int(Seq::<Key>::empty()) == 0);
    assert(keys_int(zk) == 0);
    assert(frac_len(zk) == 0);
    assert(spec_to_value(zero_token()) == Ok::<Value, ErrorV>(Value { num: 0, den: 1 }));

    lemma_keys_int_nonneg(t.keys);
    assert(v.num >= 0);
    let zero = Value { num: 0, den: 1 };
    assert(spec_addition(zero, v) == Ok::<Value, ErrorV>(v));
    assert(spec_subtraction(zero, v) == Ok::<Value, ErrorV>(
        Value { num: (-(v.num as int)) as i64, den: v.den },
    ));
}

} // verus!
