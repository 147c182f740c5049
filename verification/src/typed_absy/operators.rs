//! The operators of expressions, and what they make of literal operands.

use crate::field::{FieldElement, modulus, quotient};
use crate::typed_absy::types::Value;
use vstd::arithmetic::power2::{lemma_pow2_unfold, lemma_pow2_pos, lemma2_to64, lemma2_to64_rest, pow2};
use vstd::prelude::*;

verus! {

/// An operator with two operands.
#[derive(Debug, Clone, Copy, PartialEq, Eq, Structural)]
pub enum BinaryOp {
    Add,
    Sub,
    Mul,
    Div,
    Rem,
    And,
    Or,
    Eq,
    Lt,
    LeftShift,
    RightShift,
}

/// The number of bits that an unsigned integer of the given type holds: the
/// number that the type names, and 64 at most.
pub open spec fn effective_bits(bits: u8) -> nat {
    if bits > 64 {
        64
    } else {
        bits as nat
    }
}

/// The number of values of an unsigned integer type: two to the power of its
/// number of bits.
pub open spec fn uint_modulus(bits: u8) -> nat {
    pow2(effective_bits(bits))
}

/// The unsigned integer of the given type that the integer `v` wraps to.
pub open spec fn wrap(bits: u8, v: int) -> Value {
    Value::Uint(bits, (v % (uint_modulus(bits) as int)) as u64)
}

/// What an operator makes of two literal operands. There is no result where
/// the operands are not of one type that the operator takes, nor for a
/// division by zero.
pub open spec fn binary_value(op: BinaryOp, a: Value, b: Value) -> Option<Value> {
    match (a, b) {
        (Value::Boolean(x), Value::Boolean(y)) => match op {
            BinaryOp::And => Some(Value::Boolean(x && y)),
            BinaryOp::Or => Some(Value::Boolean(x || y)),
            BinaryOp::Eq => Some(Value::Boolean(x == y)),
            _ => None,
        },
        (Value::Uint(w, x), Value::Uint(v, y)) => if w != v {
            None
        } else {
            match op {
                BinaryOp::Add => Some(wrap(w, x + y)),
                BinaryOp::Sub => Some(wrap(w, x - y)),
                BinaryOp::Mul => Some(wrap(w, x * y)),
                BinaryOp::Div => if y == 0 {
                    None
                } else {
                    Some(wrap(w, x as int / y as int))
                },
                BinaryOp::Rem => if y == 0 {
                    None
                } else {
                    Some(wrap(w, x as int % y as int))
                },
                BinaryOp::Eq => Some(Value::Boolean(x == y)),
                BinaryOp::Lt => Some(Value::Boolean(x < y)),
                BinaryOp::LeftShift => if y >= 64 {
                    Some(Value::Uint(w, 0))
                } else {
                    Some(wrap(w, x * pow2(y as nat)))
                },
                BinaryOp::RightShift => if y >= 64 {
                    Some(Value::Uint(w, 0))
                } else {
                    Some(wrap(w, x as int / pow2(y as nat) as int))
                },
                _ => None,
            }
        },
        (Value::Field(x), Value::Field(y)) => match op {
            BinaryOp::Add => Some(Value::Field(FieldElement::from_nat((x@ + y@) % modulus()))),
            BinaryOp::Sub => Some(
                Value::Field(FieldElement::from_nat(((x@ - y@) % (modulus() as int)) as nat)),
            ),
            BinaryOp::Mul => Some(Value::Field(FieldElement::from_nat((x@ * y@) % modulus()))),
            BinaryOp::Div => match quotient(x@, y@) {
                Some(q) => if y@ == 0 {
                    None
                } else {
                    Some(Value::Field(FieldElement::from_nat(q)))
                },
                None => None,
            },
            BinaryOp::Eq => Some(Value::Boolean(x@ == y@)),
            BinaryOp::Lt => Some(Value::Boolean(x@ < y@)),
            _ => None,
        },
        _ => None,
    }
}

/// Whether the operator divides, and the second operand is a zero.
pub open spec fn divides_by_zero(op: BinaryOp, b: Value) -> bool {
    (op == BinaryOp::Div || op == BinaryOp::Rem) && match b {
        Value::Uint(_, y) => y == 0,
        Value::Field(y) => y@ == 0,
        Value::Boolean(_) => false,
    }
}

/// Two to the power of `e`, for an exponent up to 64.
pub fn power_of_two(e: u8) -> (r: u128)
    requires
        e <= 64,
    ensures
        r == pow2(e as nat),
        0 < r <= 0x1_0000_0000_0000_0000,
{
    let mut r: u128 = 1;
    let mut i: u8 = 0;
    proof {
        lemma2_to64();
    }
    while i < e
        invariant
            i <= e <= 64,
            r == pow2(i as nat),
            r <= pow2(64),
            pow2(64) == 0x1_0000_0000_0000_0000,
        decreases e - i,
    {
        proof {
            lemma_pow2_unfold((i + 1) as nat);
            if i + 1 < 64 {
                vstd::arithmetic::power2::lemma_pow2_strictly_increases((i + 1) as nat, 64);
            }
        }
        r = r * 2;
        i += 1;
    }
    proof {
        lemma_pow2_pos(e as nat);
    }
    r
}

/// The number of values of an unsigned integer type.
fn modulus_of(bits: u8) -> (r: u128)
    ensures
        r == uint_modulus(bits),
        0 < r <= 0x1_0000_0000_0000_0000,
{
    if bits > 64 {
        power_of_two(64)
    } else {
        power_of_two(bits)
    }
}

/// The unsigned integer of the given type that `v` wraps to.
pub fn wrap_value(bits: u8, v: u128) -> (r: Value)
    ensures
        r == wrap(bits, v as int),
{
    let m = modulus_of(bits);
    Value::Uint(bits, (v % m) as u64)
}

/// What the operator makes of two literal operands.
pub fn apply_binary(op: BinaryOp, a: &Value, b: &Value) -> (r: Option<Value>)
    ensures
        r == binary_value(op, *a, *b),
{
    match (a, b) {
        (Value::Boolean(x), Value::Boolean(y)) => match op {
            BinaryOp::And => Some(Value::Boolean(*x && *y)),
            BinaryOp::Or => Some(Value::Boolean(*x || *y)),
            BinaryOp::Eq => Some(Value::Boolean(*x == *y)),
            _ => None,
        },
        (Value::Uint(w, x), Value::Uint(v, y)) => {
            if *w != *v {
                return None;
            }
            let m = modulus_of(*w);
            match op {
                BinaryOp::Add => Some(wrap_value(*w, *x as u128 + *y as u128)),
                BinaryOp::Sub => {
                    // x - y and x - y + 2^64 wrap to the same value
                    let lifted: u128 = *x as u128 + 0x1_0000_0000_0000_0000u128 - *y as u128;
                    proof {
                        lemma_wrap_period(*w, *x as int - *y as int);
                    }
                    Some(wrap_value(*w, lifted))
                },
                BinaryOp::Mul => {
                    assert((*x as u128) * (*y as u128) <= 0xffff_ffff_ffff_ffff
                        * 0xffff_ffff_ffff_ffff) by (nonlinear_arith)
                        requires
                            *x <= 0xffff_ffff_ffff_ffff,
                            *y <= 0xffff_ffff_ffff_ffff,
                    ;
                    Some(wrap_value(*w, (*x as u128) * (*y as u128)))
                },
                BinaryOp::Div => if *y == 0 {
                    None
                } else {
                    Some(wrap_value(*w, (*x / *y) as u128))
                },
                BinaryOp::Rem => if *y == 0 {
                    None
                } else {
                    Some(wrap_value(*w, (*x % *y) as u128))
                },
                BinaryOp::Eq => Some(Value::Boolean(*x == *y)),
                BinaryOp::Lt => Some(Value::Boolean(*x < *y)),
                BinaryOp::LeftShift => if *y >= 64 {
                    Some(Value::Uint(*w, 0))
                } else {
                    let factor = power_of_two(*y as u8);
                    assert((*x as u128) * factor <= 0xffff_ffff_ffff_ffff
                        * 0x1_0000_0000_0000_0000) by (nonlinear_arith)
                        requires
                            *x <= 0xffff_ffff_ffff_ffff,
                            factor <= 0x1_0000_0000_0000_0000,
                    ;
                    Some(wrap_value(*w, (*x as u128) * factor))
                },
                BinaryOp::RightShift => if *y >= 64 {
                    Some(Value::Uint(*w, 0))
                } else {
                    let factor = power_of_two(*y as u8);
                    Some(wrap_value(*w, (*x as u128) / factor))
                },
                _ => None,
            }
        },
        (Value::Field(x), Value::Field(y)) => match op {
            BinaryOp::Add => Some(Value::Field(x.add(y))),
            BinaryOp::Sub => Some(Value::Field(x.sub(y))),
            BinaryOp::Mul => Some(Value::Field(x.mul(y))),
            BinaryOp::Div => {
                if y.is_zero() {
                    return None;
                }
                match x.div(y) {
                    Some(q) => Some(Value::Field(q)),
                    None => None,
                }
            },
            BinaryOp::Eq => {
                proof {
                    if x@ == y@ {
                        FieldElement::lemma_view_injective(*x, *y);
                    }
                }
                Some(Value::Boolean(*x == *y))
            },
            BinaryOp::Lt => Some(Value::Boolean(x.less_than(y))),
            _ => None,
        },
        _ => None,
    }
}

/// An integer and the integer 2^64 above it wrap to the same value.
proof fn lemma_wrap_period(bits: u8, v: int)
    ensures
        wrap(bits, v) == wrap(bits, v + 0x1_0000_0000_0000_0000),
{
    lemma2_to64();
    lemma2_to64_rest();
    let e = effective_bits(bits);
    let m = pow2(e) as int;
    lemma_pow2_pos(e);
    vstd::arithmetic::power2::lemma_pow2_adds(e, (64 - e) as nat);
    let k = pow2((64 - e) as nat) as int;
    assert(m * k == 0x1_0000_0000_0000_0000);
    vstd::arithmetic::div_mod::lemma_mod_multiples_vanish(k, v, m);
    assert(k * m == m * k) by (nonlinear_arith);
}

} // verus!
