//! The flat tier: one function over scalar variables, without loops, calls
//! and arrays.

use crate::field::{FieldElement, modulus, quotient};
use crate::typed_absy::operators::{BinaryOp, effective_bits};
use crate::typed_absy::types::{Type, Value};
use vstd::arithmetic::power2::pow2;
use vstd::prelude::*;

verus! {

/// The type of a scalar.
#[derive(Debug, Clone, Copy, PartialEq, Eq, Structural)]
pub enum ZirType {
    Boolean,
    /// An unsigned integer of the given number of bits.
    Uint(u8),
    FieldElement,
}

/// The type of the scalars that a value of type `ty` is made of.
pub open spec fn scalar_of(ty: Type) -> ZirType
    decreases ty,
{
    match ty {
        Type::Boolean => ZirType::Boolean,
        Type::Uint(bits) => ZirType::Uint(bits),
        Type::FieldElement => ZirType::FieldElement,
        Type::Array(inner, _) => scalar_of(*inner),
    }
}

/// The type of the scalars that a value of type `ty` is made of.
pub fn scalar_type(ty: &Type) -> (r: ZirType)
    ensures
        r == scalar_of(*ty),
    decreases ty,
{
    match ty {
        Type::Boolean => ZirType::Boolean,
        Type::Uint(bits) => ZirType::Uint(*bits),
        Type::FieldElement => ZirType::FieldElement,
        Type::Array(inner, _) => scalar_type(inner),
    }
}

/// The value that stands where a program names a scalar that no value of
/// its type holds: false, or zero.
pub open spec fn default_value(ty: ZirType) -> Value {
    match ty {
        ZirType::Boolean => Value::Boolean(false),
        ZirType::Uint(bits) => Value::Uint(bits, 0),
        ZirType::FieldElement => Value::Field(FieldElement::from_nat(0)),
    }
}

/// The value that stands where a program names a scalar that no value of
/// its type holds.
pub fn default_of(ty: ZirType) -> (r: Value)
    ensures
        r == default_value(ty),
{
    match ty {
        ZirType::Boolean => Value::Boolean(false),
        ZirType::Uint(bits) => Value::Uint(bits, 0),
        ZirType::FieldElement => {
            let zero = FieldElement::zero();
            proof {
                FieldElement::lemma_from_nat_view(zero);
            }
            Value::Field(zero)
        },
    }
}

/// A scalar variable: the name and the version of the variable of the typed
/// tier that it is a part of, its position among the scalars of that
/// variable, and its type.
#[derive(Debug, Clone, Copy, PartialEq, Eq, Structural)]
pub struct ZirVariable {
    pub id: usize,
    pub version: usize,
    pub leaf: u32,
    pub ty: ZirType,
}

/// An expression of the flat tier. The operators `Add`, `Sub`, `Mul` and
/// `LeftShift` on unsigned integers give the exact integer; `Reduce` brings
/// an integer back into the range of its type.
#[derive(Debug, PartialEq, Eq)]
pub enum ZirExpression {
    Value(Value),
    Identifier(ZirVariable),
    Not(Box<ZirExpression>),
    Binary(BinaryOp, Box<ZirExpression>, Box<ZirExpression>),
    IfElse(Box<ZirExpression>, Box<ZirExpression>, Box<ZirExpression>),
    /// The remainder of an integer by two to the power of the given number
    /// of bits.
    Reduce(u8, Box<ZirExpression>),
}

impl Clone for ZirExpression {
    fn clone(&self) -> (r: ZirExpression)
        ensures
            r == *self,
        decreases self,
    {
        match self {
            ZirExpression::Value(v) => ZirExpression::Value(*v),
            ZirExpression::Identifier(v) => ZirExpression::Identifier(*v),
            ZirExpression::Not(a) => ZirExpression::Not(Box::new((**a).clone())),
            ZirExpression::Binary(op, a, b) => ZirExpression::Binary(
                *op,
                Box::new((**a).clone()),
                Box::new((**b).clone()),
            ),
            ZirExpression::IfElse(c, a, b) => ZirExpression::IfElse(
                Box::new((**c).clone()),
                Box::new((**a).clone()),
                Box::new((**b).clone()),
            ),
            ZirExpression::Reduce(bits, a) => ZirExpression::Reduce(
                *bits,
                Box::new((**a).clone()),
            ),
        }
    }
}

/// A statement of the flat tier.
#[derive(Debug, PartialEq, Eq)]
pub enum ZirStatement {
    /// The assignment of a value to a scalar variable.
    Definition(ZirVariable, ZirExpression),
    /// The claim that a truth value holds.
    Assertion(ZirExpression),
}

impl Clone for ZirStatement {
    fn clone(&self) -> (r: ZirStatement)
        ensures
            r == *self,
    {
        match self {
            ZirStatement::Definition(v, e) => ZirStatement::Definition(*v, e.clone()),
            ZirStatement::Assertion(e) => ZirStatement::Assertion(e.clone()),
        }
    }
}

/// An argument of the flat program: its variable, and whether its value
/// stays hidden from the verifier.
#[derive(Debug, Clone, Copy, PartialEq, Eq, Structural)]
pub struct ZirParameter {
    pub variable: ZirVariable,
    pub private: bool,
}

/// A flat program as the values that its meaning depends on.
pub struct ZirProgramView {
    pub arguments: Seq<ZirParameter>,
    pub statements: Seq<ZirStatement>,
    pub returns: Seq<ZirExpression>,
}

/// A program of the flat tier: its arguments, its statements and the values
/// that it returns.
#[derive(Debug, Clone, PartialEq, Eq)]
pub struct ZirProgram {
    pub arguments: Vec<ZirParameter>,
    pub statements: Vec<ZirStatement>,
    pub returns: Vec<ZirExpression>,
}

impl View for ZirProgram {
    type V = ZirProgramView;

    open spec fn view(&self) -> ZirProgramView {
        ZirProgramView {
            arguments: self.arguments@,
            statements: self.statements@,
            returns: self.returns@,
        }
    }
}

/// What an expression of the flat tier stands for: a truth value, an
/// integer, an element of the field by its value, or nothing.
pub enum Number {
    Boolean(bool),
    Integer(int),
    Field(nat),
    Undefined,
}

/// What a literal stands for.
pub open spec fn number_of(v: Value) -> Number {
    match v {
        Value::Boolean(b) => Number::Boolean(b),
        Value::Uint(_, x) => Number::Integer(x as int),
        Value::Field(x) => Number::Field(x@),
    }
}

/// What an operator makes of what its operands stand for.
pub open spec fn apply(op: BinaryOp, a: Number, b: Number) -> Number {
    match (a, b) {
        (Number::Boolean(x), Number::Boolean(y)) => match op {
            BinaryOp::And => Number::Boolean(x && y),
            BinaryOp::Or => Number::Boolean(x || y),
            BinaryOp::Eq => Number::Boolean(x == y),
            _ => Number::Undefined,
        },
        (Number::Integer(x), Number::Integer(y)) => match op {
            BinaryOp::Add => Number::Integer(x + y),
            BinaryOp::Sub => Number::Integer(x - y),
            BinaryOp::Mul => Number::Integer(x * y),
            BinaryOp::Div => if y == 0 {
                Number::Undefined
            } else {
                Number::Integer(x / y)
            },
            BinaryOp::Rem => if y == 0 {
                Number::Undefined
            } else {
                Number::Integer(x % y)
            },
            BinaryOp::Eq => Number::Boolean(x == y),
            BinaryOp::Lt => Number::Boolean(x < y),
            BinaryOp::LeftShift => if y < 0 {
                Number::Undefined
            } else {
                Number::Integer(x * pow2(y as nat))
            },
            BinaryOp::RightShift => if y < 0 {
                Number::Undefined
            } else {
                Number::Integer(x / (pow2(y as nat) as int))
            },
            _ => Number::Undefined,
        },
        (Number::Field(x), Number::Field(y)) => match op {
            BinaryOp::Add => Number::Field((x + y) % modulus()),
            BinaryOp::Sub => Number::Field(((x - y) % (modulus() as int)) as nat),
            BinaryOp::Mul => Number::Field((x * y) % modulus()),
            BinaryOp::Div => match quotient(x, y) {
                Some(q) => if y == 0 {
                    Number::Undefined
                } else {
                    Number::Field(q)
                },
                None => Number::Undefined,
            },
            BinaryOp::Eq => Number::Boolean(x == y),
            BinaryOp::Lt => Number::Boolean(x < y),
            _ => Number::Undefined,
        },
        _ => Number::Undefined,
    }
}

/// What an expression stands for, given what its variables stand for.
pub open spec fn evaluate(env: Map<ZirVariable, Number>, e: ZirExpression) -> Number
    decreases e,
{
    match e {
        ZirExpression::Value(v) => number_of(v),
        ZirExpression::Identifier(v) => if env.contains_key(v) {
            env[v]
        } else {
            Number::Undefined
        },
        ZirExpression::Not(a) => match evaluate(env, *a) {
            Number::Boolean(x) => Number::Boolean(!x),
            _ => Number::Undefined,
        },
        ZirExpression::Binary(op, a, b) => apply(op, evaluate(env, *a), evaluate(env, *b)),
        ZirExpression::IfElse(c, a, b) => match evaluate(env, *c) {
            Number::Boolean(x) => if x {
                evaluate(env, *a)
            } else {
                evaluate(env, *b)
            },
            _ => Number::Undefined,
        },
        ZirExpression::Reduce(bits, a) => match evaluate(env, *a) {
            Number::Integer(x) => Number::Integer(x % (pow2(effective_bits(bits)) as int)),
            _ => Number::Undefined,
        },
    }
}

/// Whether each variable stands for a value of its type: an unsigned
/// integer for an integer within the range of its number of bits.
pub open spec fn well_typed(env: Map<ZirVariable, Number>) -> bool {
    forall|v: ZirVariable| #[trigger]
        env.contains_key(v) ==> match v.ty {
            ZirType::Uint(bits) => env[v] matches Number::Integer(x) && 0 <= x < pow2(
                effective_bits(bits),
            ),
            ZirType::Boolean => env[v] is Boolean,
            ZirType::FieldElement => env[v] is Field,
        }
}

} // verus!
