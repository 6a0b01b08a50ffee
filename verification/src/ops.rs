use vstd::prelude::*;

use crate::variant::{same_value, variant_equal, Variant, DEPTH};

verus! {

/// The binary operators of the language.
#[derive(Clone, Copy, Debug, PartialEq, Eq, Structural)]
pub enum BinaryOp {
    Add,
    Sub,
    Multiply,
    Divide,
    Pow,
    And,
    Or,
    Equal,
    NotEqual,
    LessThan,
    LessThanOrEqual,
    GreaterThan,
    GreaterThanOrEqual,
}

/// What an operator gives: a value, or an operation on a floating-point
/// number, which the host computes.
#[derive(Debug)]
pub enum Outcome {
    Value(Variant),
    Float,
}

/// `x` to the power `e`, with wrapping multiplication.
pub open spec fn wrapping_pow(x: i64, e: nat) -> i64
    decreases e,
{
    if e == 0 {
        1
    } else {
        wrapping_pow(x, (e - 1) as nat).wrapping_mul(x)
    }
}

/// Integer arithmetic wraps around; division by zero, and the one quotient
/// that does not fit, give `Null`, as does a negative exponent.
pub open spec fn int_arith(op: BinaryOp, x: i64, y: i64) -> Variant {
    match op {
        BinaryOp::Add => Variant::Integer(x.wrapping_add(y)),
        BinaryOp::Sub => Variant::Integer(x.wrapping_sub(y)),
        BinaryOp::Multiply => Variant::Integer(x.wrapping_mul(y)),
        BinaryOp::Divide => match x.checked_div(y) {
            Some(q) => Variant::Integer(q),
            None => Variant::Null,
        },
        BinaryOp::Pow => if y >= 0 {
            Variant::Integer(wrapping_pow(x, y as nat))
        } else {
            Variant::Null
        },
        _ => Variant::Null,
    }
}

pub open spec fn int_compare(op: BinaryOp, x: i64, y: i64) -> bool {
    match op {
        BinaryOp::LessThan => x < y,
        BinaryOp::LessThanOrEqual => x <= y,
        BinaryOp::GreaterThan => x > y,
        _ => x >= y,
    }
}

pub open spec fn is_comparison(op: BinaryOp) -> bool {
    op == BinaryOp::LessThan || op == BinaryOp::LessThanOrEqual || op == BinaryOp::GreaterThan
        || op == BinaryOp::GreaterThanOrEqual
}

pub open spec fn is_arithmetic(op: BinaryOp) -> bool {
    op == BinaryOp::Add || op == BinaryOp::Sub || op == BinaryOp::Multiply || op == BinaryOp::Divide
        || op == BinaryOp::Pow
}

/// What `a op b` gives. With a floating-point operand, arithmetic,
/// comparison and equality are left to the host. Otherwise: integer
/// arithmetic as `int_arith`; `+` on two texts joins them; `and` and `or` on
/// two booleans; equality is `same_value`; comparisons order integers and are
/// false for other values; anything else gives `Null`.
pub open spec fn binary_result(op: BinaryOp, a: Variant, b: Variant, r: Outcome) -> bool {
    if (a is Float || b is Float) && op != BinaryOp::And && op != BinaryOp::Or {
        r is Float
    } else {
        match r {
            Outcome::Float => false,
            Outcome::Value(v) => match op {
                BinaryOp::Equal => v == Variant::Bool(same_value(a, b, DEPTH as nat)),
                BinaryOp::NotEqual => v == Variant::Bool(!same_value(a, b, DEPTH as nat)),
                BinaryOp::And => match (a, b) {
                    (Variant::Bool(x), Variant::Bool(y)) => v == Variant::Bool(x && y),
                    _ => v == Variant::Null,
                },
                BinaryOp::Or => match (a, b) {
                    (Variant::Bool(x), Variant::Bool(y)) => v == Variant::Bool(x || y),
                    _ => v == Variant::Null,
                },
                _ => if is_comparison(op) {
                    match (a, b) {
                        (Variant::Integer(x), Variant::Integer(y)) => v == Variant::Bool(int_compare(op, x, y)),
                        _ => v == Variant::Bool(false),
                    }
                } else {
                    match (a, b) {
                        (Variant::Integer(x), Variant::Integer(y)) => v == int_arith(op, x, y),
                        (Variant::String(x), Variant::String(y)) => if op == BinaryOp::Add {
                            v matches Variant::String(s) && s@ == x@ + y@
                        } else {
                            v == Variant::Null
                        },
                        _ => v == Variant::Null,
                    }
                },
            },
        }
    }
}

fn pow_wrapping(x: i64, e: i64) -> (r: i64)
    requires
        e >= 0,
    ensures
        r == wrapping_pow(x, e as nat),
{
    let mut acc: i64 = 1;
    let mut i: i64 = 0;
    while i < e
        invariant
            0 <= i <= e,
            acc == wrapping_pow(x, i as nat),
        decreases e - i,
    {
        acc = acc.wrapping_mul(x);
        i = i + 1;
        proof {
            assert(((i as nat) - 1) as nat == (i - 1) as nat);
        }
    }
    acc
}

fn join_texts(x: &String, y: &String) -> (r: String)
    ensures
        r@ == x@ + y@,
{
    let mut s = x.clone();
    s.append(y.as_str());
    s
}

/// Applies a binary operator to two values.
pub fn binary(op: BinaryOp, a: &Variant, b: &Variant) -> (r: Outcome)
    ensures
        binary_result(op, *a, *b, r),
{
    let is_float = match (a, b) {
        (Variant::Float(_), _) => true,
        (_, Variant::Float(_)) => true,
        _ => false,
    };
    if is_float && op != BinaryOp::And && op != BinaryOp::Or {
        return Outcome::Float;
    }
    match op {
        BinaryOp::Equal => Outcome::Value(Variant::Bool(variant_equal(a, b, DEPTH))),
        BinaryOp::NotEqual => Outcome::Value(Variant::Bool(!variant_equal(a, b, DEPTH))),
        BinaryOp::And => match (a, b) {
            (Variant::Bool(x), Variant::Bool(y)) => Outcome::Value(Variant::Bool(*x && *y)),
            _ => Outcome::Value(Variant::Null),
        },
        BinaryOp::Or => match (a, b) {
            (Variant::Bool(x), Variant::Bool(y)) => Outcome::Value(Variant::Bool(*x || *y)),
            _ => Outcome::Value(Variant::Null),
        },
        BinaryOp::LessThan | BinaryOp::LessThanOrEqual | BinaryOp::GreaterThan | BinaryOp::GreaterThanOrEqual => {
            match (a, b) {
                (Variant::Integer(x), Variant::Integer(y)) => {
                    let c = match op {
                        BinaryOp::LessThan => *x < *y,
                        BinaryOp::LessThanOrEqual => *x <= *y,
                        BinaryOp::GreaterThan => *x > *y,
                        _ => *x >= *y,
                    };
                    Outcome::Value(Variant::Bool(c))
                },
                _ => Outcome::Value(Variant::Bool(false)),
            }
        },
        _ => match (a, b) {
            (Variant::Integer(x), Variant::Integer(y)) => {
                let x = *x;
                let y = *y;
                let v = match op {
                    BinaryOp::Add => Variant::Integer(x.wrapping_add(y)),
                    BinaryOp::Sub => Variant::Integer(x.wrapping_sub(y)),
                    BinaryOp::Multiply => Variant::Integer(x.wrapping_mul(y)),
                    BinaryOp::Divide => match x.checked_div(y) {
                        Some(q) => Variant::Integer(q),
                        None => Variant::Null,
                    },
                    _ => if y >= 0 {
                        Variant::Integer(pow_wrapping(x, y))
                    } else {
                        Variant::Null
                    },
                };
                Outcome::Value(v)
            },
            (Variant::String(x), Variant::String(y)) => {
                if op == BinaryOp::Add {
                    Outcome::Value(Variant::String(join_texts(x, y)))
                } else {
                    Outcome::Value(Variant::Null)
                }
            },
            _ => Outcome::Value(Variant::Null),
        },
    }
}

/// `not` on a boolean negates it; on anything else it gives `Null`.
pub open spec fn not_result(a: Variant) -> Variant {
    match a {
        Variant::Bool(b) => Variant::Bool(!b),
        _ => Variant::Null,
    }
}

pub fn not(a: &Variant) -> (r: Variant)
    ensures
        r == not_result(*a),
{
    match a {
        Variant::Bool(b) => Variant::Bool(!*b),
        _ => Variant::Null,
    }
}

} // verus!
