//! Constant folding in the flat tier.

use crate::field::{FieldElement, modulus, quotient};
use crate::typed_absy::operators::{
    BinaryOp, apply_binary, binary_value, divides_by_zero, effective_bits, power_of_two, wrap,
    wrap_value,
};
use crate::typed_absy::types::Value;
use crate::zir::{
    Number, ZirExpression, ZirProgram, ZirProgramView, ZirStatement, ZirVariable, apply,
    evaluate, number_of,
};
use vstd::arithmetic::div_mod::{lemma_basic_div, lemma_mod_bound, lemma_mod_multiples_basic};
use vstd::arithmetic::power2::{
    lemma2_to64, lemma2_to64_rest, lemma_pow2_adds, lemma_pow2_pos,
    lemma_pow2_strictly_increases, pow2,
};
use vstd::prelude::*;

verus! {

/// Why a flat program cannot be propagated.
#[derive(Debug, Clone, Copy, PartialEq, Eq, Structural)]
pub enum Error {
    /// A division or a remainder whose second operand is a literal zero.
    DivisionByZero,
}

impl Error {
    /// The error in words.
    pub fn message(&self) -> (r: String)
        ensures
            r@ == "division by zero"@,
    {
        "division by zero".to_string()
    }
}

/// Whether the result of an operator on unsigned integers can leave the
/// range of its type.
pub open spec fn leaves_range(op: BinaryOp) -> bool {
    op == BinaryOp::Add || op == BinaryOp::Sub || op == BinaryOp::Mul || op == BinaryOp::LeftShift
}

/// What an operator of the flat tier makes of two literals: on unsigned
/// integers the exact integer, where the operator cannot leave the range of
/// its first operand; on other values what the operator makes of them in
/// the typed tier.
pub open spec fn exact_value(op: BinaryOp, x: Value, y: Value) -> Option<Value> {
    match (x, y) {
        (Value::Uint(w, a), Value::Uint(_, b)) => match op {
            BinaryOp::Div => if b == 0 {
                None
            } else {
                Some(Value::Uint(w, (a / b) as u64))
            },
            BinaryOp::Rem => if b == 0 {
                None
            } else {
                Some(Value::Uint(w, (a % b) as u64))
            },
            BinaryOp::RightShift => if b >= 64 {
                Some(Value::Uint(w, 0))
            } else {
                Some(Value::Uint(w, (a as nat / pow2(b as nat)) as u64))
            },
            BinaryOp::Eq => Some(Value::Boolean(a == b)),
            BinaryOp::Lt => Some(Value::Boolean(a < b)),
            _ => None,
        },
        _ => binary_value(op, x, y),
    }
}

/// What an operator applied to two folded operands folds to.
pub open spec fn combine(op: BinaryOp, a: ZirExpression, b: ZirExpression) -> Result<
    ZirExpression,
    Error,
> {
    let unfolded = ZirExpression::Binary(op, Box::new(a), Box::new(b));
    match b {
        ZirExpression::Value(y) => if divides_by_zero(op, y) {
            Err(Error::DivisionByZero)
        } else {
            match a {
                ZirExpression::Value(x) => match exact_value(op, x, y) {
                    Some(v) => Ok(ZirExpression::Value(v)),
                    None => Ok(unfolded),
                },
                _ => Ok(unfolded),
            }
        },
        _ => Ok(unfolded),
    }
}

/// What the reduction of a folded operand to `bits` bits folds to: the
/// literal in range where the operand is a literal, or an operator on two
/// literals that can leave the range.
pub open spec fn reduced(bits: u8, a: ZirExpression) -> ZirExpression {
    let unfolded = ZirExpression::Reduce(bits, Box::new(a));
    match a {
        ZirExpression::Value(Value::Uint(_, x)) => ZirExpression::Value(wrap(bits, x as int)),
        ZirExpression::Binary(op, left, right) => match (*left, *right) {
            (ZirExpression::Value(Value::Uint(_, x)), ZirExpression::Value(Value::Uint(_, y))) => {
                if leaves_range(op) {
                    match binary_value(op, Value::Uint(bits, x), Value::Uint(bits, y)) {
                        Some(v) => ZirExpression::Value(v),
                        None => unfolded,
                    }
                } else {
                    unfolded
                }
            },
            _ => unfolded,
        },
        _ => unfolded,
    }
}

/// The folded form of an expression of the flat tier.
pub open spec fn fold_expression(e: ZirExpression) -> Result<ZirExpression, Error>
    decreases e,
{
    match e {
        ZirExpression::Value(_) => Ok(e),
        ZirExpression::Identifier(_) => Ok(e),
        ZirExpression::Not(a) => match fold_expression(*a) {
            Err(err) => Err(err),
            Ok(ZirExpression::Value(Value::Boolean(x))) => Ok(
                ZirExpression::Value(Value::Boolean(!x)),
            ),
            Ok(folded) => Ok(ZirExpression::Not(Box::new(folded))),
        },
        ZirExpression::Binary(op, a, b) => match fold_expression(*a) {
            Err(err) => Err(err),
            Ok(left) => match fold_expression(*b) {
                Err(err) => Err(err),
                Ok(right) => combine(op, left, right),
            },
        },
        ZirExpression::IfElse(c, a, b) => match fold_expression(*c) {
            Err(err) => Err(err),
            Ok(ZirExpression::Value(Value::Boolean(x))) => if x {
                fold_expression(*a)
            } else {
                fold_expression(*b)
            },
            Ok(condition) => match fold_expression(*a) {
                Err(err) => Err(err),
                Ok(consequence) => match fold_expression(*b) {
                    Err(err) => Err(err),
                    Ok(alternative) => Ok(
                        ZirExpression::IfElse(
                            Box::new(condition),
                            Box::new(consequence),
                            Box::new(alternative),
                        ),
                    ),
                },
            },
        },
        ZirExpression::Reduce(bits, a) => match fold_expression(*a) {
            Err(err) => Err(err),
            Ok(folded) => Ok(reduced(bits, folded)),
        },
    }
}

/// The folded forms of a list of expressions, or the error of the first
/// that has none.
pub open spec fn fold_expressions(es: Seq<ZirExpression>) -> Result<Seq<ZirExpression>, Error>
    decreases es.len(),
{
    if es.len() == 0 {
        Ok(Seq::empty())
    } else {
        match fold_expressions(es.drop_last()) {
            Err(err) => Err(err),
            Ok(head) => match fold_expression(es.last()) {
                Err(err) => Err(err),
                Ok(last) => Ok(head.push(last)),
            },
        }
    }
}

/// The statements `out` with the folded form of `s` after them. An
/// assertion that folds to true is left out.
pub open spec fn fold_statement(out: Seq<ZirStatement>, s: ZirStatement) -> Result<
    Seq<ZirStatement>,
    Error,
> {
    match s {
        ZirStatement::Definition(v, e) => match fold_expression(e) {
            Err(err) => Err(err),
            Ok(value) => Ok(out.push(ZirStatement::Definition(v, value))),
        },
        ZirStatement::Assertion(e) => match fold_expression(e) {
            Err(err) => Err(err),
            Ok(ZirExpression::Value(Value::Boolean(true))) => Ok(out),
            Ok(condition) => Ok(out.push(ZirStatement::Assertion(condition))),
        },
    }
}

/// The folded forms of the statements of a list, or the error of the first
/// that has none.
pub open spec fn fold_statements(ss: Seq<ZirStatement>) -> Result<Seq<ZirStatement>, Error>
    decreases ss.len(),
{
    if ss.len() == 0 {
        Ok(Seq::empty())
    } else {
        match fold_statements(ss.drop_last()) {
            Err(err) => Err(err),
            Ok(head) => fold_statement(head, ss.last()),
        }
    }
}

/// The folded form of a flat program.
pub open spec fn propagate_program(p: ZirProgramView) -> Result<ZirProgramView, Error> {
    match fold_statements(p.statements) {
        Err(err) => Err(err),
        Ok(statements) => match fold_expressions(p.returns) {
            Err(err) => Err(err),
            Ok(results) => Ok(
                ZirProgramView { arguments: p.arguments, statements: statements, returns: results },
            ),
        },
    }
}

/// Where the folding of a prefix of a list of expressions fails, the
/// folding of the list fails with the same error.
pub proof fn lemma_fold_expressions_prefix_error(es: Seq<ZirExpression>, n: int, err: Error)
    requires
        0 <= n <= es.len(),
        fold_expressions(es.take(n)) == Err::<Seq<ZirExpression>, Error>(err),
    ensures
        fold_expressions(es) == Err::<Seq<ZirExpression>, Error>(err),
    decreases es.len() - n,
{
    if n < es.len() {
        assert(es.take(n + 1).drop_last() =~= es.take(n));
        lemma_fold_expressions_prefix_error(es, n + 1, err);
    } else {
        assert(es.take(n) =~= es);
    }
}

/// Where the folding of a prefix of a list of statements fails, the folding
/// of the list fails with the same error.
pub proof fn lemma_fold_statements_prefix_error(ss: Seq<ZirStatement>, n: int, err: Error)
    requires
        0 <= n <= ss.len(),
        fold_statements(ss.take(n)) == Err::<Seq<ZirStatement>, Error>(err),
    ensures
        fold_statements(ss) == Err::<Seq<ZirStatement>, Error>(err),
    decreases ss.len() - n,
{
    if n < ss.len() {
        assert(ss.take(n + 1).drop_last() =~= ss.take(n));
        lemma_fold_statements_prefix_error(ss, n + 1, err);
    } else {
        assert(ss.take(n) =~= ss);
    }
}

/// Two to the power of a number of bits of an unsigned integer type is at
/// most two to the power of 64.
proof fn lemma_modulus_bound(bits: u8)
    ensures
        0 < pow2(effective_bits(bits)) <= 0x1_0000_0000_0000_0000,
        pow2(64) == 0x1_0000_0000_0000_0000,
{
    lemma2_to64();
    lemma2_to64_rest();
    lemma_pow2_pos(effective_bits(bits));
    if effective_bits(bits) < 64 {
        lemma_pow2_strictly_increases(effective_bits(bits), 64);
    }
}

/// The unsigned integer that an integer wraps to stands for the remainder
/// of the integer.
proof fn lemma_wrap_number(bits: u8, v: int)
    ensures
        number_of(wrap(bits, v)) == Number::Integer(v % (pow2(effective_bits(bits)) as int)),
{
    lemma_modulus_bound(bits);
    lemma_mod_bound(v, pow2(effective_bits(bits)) as int);
}

/// What `exact_value` makes of two literals stands for what the operator
/// makes of what the literals stand for.
proof fn lemma_exact_value(op: BinaryOp, x: Value, y: Value)
    ensures
        exact_value(op, x, y) matches Some(v) ==> number_of(v) == apply(
            op,
            number_of(x),
            number_of(y),
        ),
{
    match (x, y) {
        (Value::Uint(_, a), Value::Uint(_, b)) => {
            if op == BinaryOp::RightShift {
                lemma2_to64();
                lemma2_to64_rest();
                lemma_pow2_pos(b as nat);
                if b >= 64 {
                    if b > 64 {
                        lemma_pow2_strictly_increases(64, b as nat);
                    }
                    lemma_basic_div(a as int, pow2(b as nat) as int);
                }
            }
        },
        (Value::Field(a), Value::Field(b)) => {
            if let Some(Value::Field(r)) = exact_value(op, x, y) {
                if op == BinaryOp::Add {
                    FieldElement::lemma_from_nat((a@ + b@) % modulus());
                } else if op == BinaryOp::Sub {
                    FieldElement::lemma_from_nat(
                        ((a@ - b@) % (modulus() as int)) as nat,
                    );
                } else if op == BinaryOp::Mul {
                    FieldElement::lemma_from_nat((a@ * b@) % modulus());
                } else if op == BinaryOp::Div {
                    FieldElement::lemma_from_nat(quotient(a@, b@)->Some_0);
                }
            }
        },
        _ => {},
    }
}

/// What `combine` makes of two folded operands stands for what the operator
/// makes of what they stand for.
proof fn lemma_combine(env: Map<ZirVariable, Number>, op: BinaryOp, a: ZirExpression, b: ZirExpression)
    ensures
        combine(op, a, b) matches Ok(folded) ==> evaluate(env, folded) == apply(
            op,
            evaluate(env, a),
            evaluate(env, b),
        ),
{
    match (a, b) {
        (ZirExpression::Value(x), ZirExpression::Value(y)) => {
            lemma_exact_value(op, x, y);
        },
        _ => {},
    }
}

/// What `reduced` makes of a folded operand stands for the remainder of
/// what the operand stands for.
proof fn lemma_reduced(env: Map<ZirVariable, Number>, bits: u8, a: ZirExpression)
    ensures
        evaluate(env, reduced(bits, a)) == evaluate(env, ZirExpression::Reduce(bits, Box::new(a))),
{
    let m = pow2(effective_bits(bits)) as int;
    lemma_modulus_bound(bits);
    reveal_with_fuel(evaluate, 3);
    match a {
        ZirExpression::Value(Value::Uint(_, x)) => {
            lemma_wrap_number(bits, x as int);
        },
        ZirExpression::Binary(op, left, right) => match (*left, *right) {
            (ZirExpression::Value(Value::Uint(_, x)), ZirExpression::Value(Value::Uint(_, y))) => {
                if leaves_range(op) {
                    lemma_wrap_number(bits, x + y);
                    lemma_wrap_number(bits, x - y);
                    lemma_wrap_number(bits, x * y);
                    if op == BinaryOp::LeftShift {
                        if y >= 64 {
                            let e = effective_bits(bits);
                            lemma_pow2_adds(e, (y - e) as nat);
                            lemma_mod_multiples_basic(x * pow2((y - e) as nat), m);
                            assert(x * pow2(y as nat) == (x * pow2((y - e) as nat)) * m)
                                by (nonlinear_arith)
                                requires
                                    pow2(y as nat) == pow2(e) * pow2((y - e) as nat),
                                    m == pow2(e),
                            ;
                        } else {
                            lemma_wrap_number(bits, x * pow2(y as nat));
                        }
                    }
                }
            },
            _ => {},
        },
        _ => {},
    }
}

/// Folding preserves what expressions stand for: where an expression of
/// the flat tier folds, its folded form stands for what the expression
/// stands for, whatever its variables stand for.
pub proof fn lemma_folding_preserves_value(env: Map<ZirVariable, Number>, e: ZirExpression)
    ensures
        fold_expression(e) matches Ok(folded) ==> evaluate(env, folded) == evaluate(env, e),
    decreases e,
{
    match e {
        ZirExpression::Not(a) => {
            lemma_folding_preserves_value(env, *a);
        },
        ZirExpression::Binary(op, a, b) => {
            lemma_folding_preserves_value(env, *a);
            lemma_folding_preserves_value(env, *b);
            if let Ok(left) = fold_expression(*a) {
                if let Ok(right) = fold_expression(*b) {
                    lemma_combine(env, op, left, right);
                }
            }
        },
        ZirExpression::IfElse(c, a, b) => {
            lemma_folding_preserves_value(env, *c);
            lemma_folding_preserves_value(env, *a);
            lemma_folding_preserves_value(env, *b);
        },
        ZirExpression::Reduce(bits, a) => {
            lemma_folding_preserves_value(env, *a);
            if let Ok(folded) = fold_expression(*a) {
                lemma_reduced(env, bits, folded);
            }
        },
        _ => {},
    }
}

/// What the variables stand for after a statement of the flat tier: an
/// assignment gives its variable what its expression stands for, an
/// assertion leaves everything as it is where it holds, and nothing is left
/// where it does not.
pub open spec fn run_statement(env: Map<ZirVariable, Number>, s: ZirStatement) -> Option<
    Map<ZirVariable, Number>,
> {
    match s {
        ZirStatement::Definition(v, e) => Some(env.insert(v, evaluate(env, e))),
        ZirStatement::Assertion(e) => if evaluate(env, e) == Number::Boolean(true) {
            Some(env)
        } else {
            None
        },
    }
}

/// What the variables stand for after the statements of a list, one after
/// the other.
pub open spec fn run(env: Map<ZirVariable, Number>, ss: Seq<ZirStatement>) -> Option<
    Map<ZirVariable, Number>,
>
    decreases ss.len(),
{
    if ss.len() == 0 {
        Some(env)
    } else {
        match run(env, ss.drop_last()) {
            Some(middle) => run_statement(middle, ss.last()),
            None => None,
        }
    }
}

/// Propagation preserves what a flat program computes: where the
/// statements of a program fold, the folded statements leave the variables
/// standing for what the statements leave them standing for, and fail
/// where the statements fail.
pub proof fn lemma_propagation_preserves_run(env: Map<ZirVariable, Number>, ss: Seq<ZirStatement>)
    ensures
        fold_statements(ss) matches Ok(folded) ==> run(env, folded) == run(env, ss),
    decreases ss.len(),
{
    if ss.len() > 0 {
        let head = ss.drop_last();
        lemma_propagation_preserves_run(env, head);
        if let Ok(before) = fold_statements(head) {
            if let Ok(after) = fold_statement(before, ss.last()) {
                if let Some(middle) = run(env, head) {
                    match ss.last() {
                        ZirStatement::Definition(v, e) => {
                            lemma_folding_preserves_value(middle, e);
                            assert(after.drop_last() =~= before);
                        },
                        ZirStatement::Assertion(e) => {
                            lemma_folding_preserves_value(middle, e);
                            if after != before {
                                assert(after.drop_last() =~= before);
                            }
                        },
                    }
                } else {
                    match ss.last() {
                        ZirStatement::Definition(v, e) => {
                            assert(after.drop_last() =~= before);
                        },
                        ZirStatement::Assertion(e) => {
                            if after != before {
                                assert(after.drop_last() =~= before);
                            }
                        },
                    }
                }
            }
        }
    }
}

/// What the operator makes of two literals of the flat tier.
fn apply_exact(op: BinaryOp, x: &Value, y: &Value) -> (r: Option<Value>)
    ensures
        r == exact_value(op, *x, *y),
{
    match (x, y) {
        (Value::Uint(w, a), Value::Uint(_, b)) => match op {
            BinaryOp::Div => if *b == 0 {
                None
            } else {
                Some(Value::Uint(*w, *a / *b))
            },
            BinaryOp::Rem => if *b == 0 {
                None
            } else {
                Some(Value::Uint(*w, *a % *b))
            },
            BinaryOp::RightShift => if *b >= 64 {
                Some(Value::Uint(*w, 0))
            } else {
                let factor = power_of_two(*b as u8);
                Some(Value::Uint(*w, ((*a as u128) / factor) as u64))
            },
            BinaryOp::Eq => Some(Value::Boolean(*a == *b)),
            BinaryOp::Lt => Some(Value::Boolean(*a < *b)),
            _ => None,
        },
        _ => apply_binary(op, x, y),
    }
}

/// Whether the operator divides, and the operand is a literal zero.
fn is_zero_divisor(op: BinaryOp, e: &ZirExpression) -> (r: bool)
    ensures
        r == (*e matches ZirExpression::Value(y) && divides_by_zero(op, y)),
{
    if !(op == BinaryOp::Div || op == BinaryOp::Rem) {
        return false;
    }
    match e {
        ZirExpression::Value(Value::Uint(_, y)) => *y == 0,
        ZirExpression::Value(Value::Field(y)) => y.is_zero(),
        _ => false,
    }
}

/// What an operator applied to two folded operands folds to.
fn combine_folded(op: BinaryOp, a: ZirExpression, b: ZirExpression) -> (r: Result<
    ZirExpression,
    Error,
>)
    ensures
        r == combine(op, a, b),
{
    if is_zero_divisor(op, &b) {
        return Err(Error::DivisionByZero);
    }
    let folded: Option<Value> = match (&a, &b) {
        (ZirExpression::Value(x), ZirExpression::Value(y)) => apply_exact(op, x, y),
        _ => None,
    };
    match folded {
        Some(v) => Ok(ZirExpression::Value(v)),
        None => Ok(ZirExpression::Binary(op, Box::new(a), Box::new(b))),
    }
}

/// What the reduction of a folded operand to `bits` bits folds to.
fn reduce_folded(bits: u8, a: ZirExpression) -> (r: ZirExpression)
    ensures
        r == reduced(bits, a),
{
    let folded: Option<Value> = match &a {
        ZirExpression::Value(Value::Uint(_, x)) => Some(wrap_value(bits, *x as u128)),
        ZirExpression::Binary(op, left, right) => match (&**left, &**right) {
            (ZirExpression::Value(Value::Uint(_, x)), ZirExpression::Value(Value::Uint(_, y))) => {
                if *op == BinaryOp::Add || *op == BinaryOp::Sub || *op == BinaryOp::Mul || *op
                    == BinaryOp::LeftShift {
                    apply_binary(*op, &Value::Uint(bits, *x), &Value::Uint(bits, *y))
                } else {
                    None
                }
            },
            _ => None,
        },
        _ => None,
    };
    match folded {
        Some(v) => ZirExpression::Value(v),
        None => ZirExpression::Reduce(bits, Box::new(a)),
    }
}

/// Constant folding in the flat tier.
#[derive(Debug, Clone, Copy)]
pub struct ZirPropagator;

impl ZirPropagator {
    /// The folded form of `e`.
    pub fn fold(e: &ZirExpression) -> (r: Result<ZirExpression, Error>)
        ensures
            r == fold_expression(*e),
        decreases e,
    {
        match e {
            ZirExpression::Value(v) => Ok(ZirExpression::Value(*v)),
            ZirExpression::Identifier(v) => Ok(ZirExpression::Identifier(*v)),
            ZirExpression::Not(a) => {
                let folded = ZirPropagator::fold(a)?;
                match folded {
                    ZirExpression::Value(Value::Boolean(x)) => Ok(
                        ZirExpression::Value(Value::Boolean(!x)),
                    ),
                    other => Ok(ZirExpression::Not(Box::new(other))),
                }
            },
            ZirExpression::Binary(op, a, b) => {
                let left = ZirPropagator::fold(a)?;
                let right = ZirPropagator::fold(b)?;
                combine_folded(*op, left, right)
            },
            ZirExpression::IfElse(c, a, b) => {
                let condition = ZirPropagator::fold(c)?;
                match condition {
                    ZirExpression::Value(Value::Boolean(x)) => {
                        if x {
                            ZirPropagator::fold(a)
                        } else {
                            ZirPropagator::fold(b)
                        }
                    },
                    other => {
                        let consequence = ZirPropagator::fold(a)?;
                        let alternative = ZirPropagator::fold(b)?;
                        Ok(
                            ZirExpression::IfElse(
                                Box::new(other),
                                Box::new(consequence),
                                Box::new(alternative),
                            ),
                        )
                    },
                }
            },
            ZirExpression::Reduce(bits, a) => {
                let folded = ZirPropagator::fold(a)?;
                Ok(reduce_folded(*bits, folded))
            },
        }
    }

    /// The folded form of a flat program.
    pub fn propagate(p: ZirProgram) -> (r: Result<ZirProgram, Error>)
        ensures
            match r {
                Ok(q) => propagate_program(p@) == Ok::<ZirProgramView, Error>(q@),
                Err(err) => propagate_program(p@) == Err::<ZirProgramView, Error>(err),
            },
    {
        let ghost input = p.statements@;
        let mut statements: Vec<ZirStatement> = Vec::new();
        let mut i: usize = 0;
        assert(input.take(0) =~= Seq::<ZirStatement>::empty());
        while i < p.statements.len()
            invariant
                i <= p.statements.len(),
                input == p.statements@,
                fold_statements(input.take(i as int)) == Ok::<Seq<ZirStatement>, Error>(
                    statements@,
                ),
            decreases p.statements.len() - i,
        {
            proof {
                assert(input.take(i + 1).drop_last() =~= input.take(i as int));
                assert(input.take(i + 1).last() == input[i as int]);
            }
            let folded = match &p.statements[i] {
                ZirStatement::Definition(v, e) => match ZirPropagator::fold(e) {
                    Ok(value) => Ok(Some(ZirStatement::Definition(*v, value))),
                    Err(err) => Err(err),
                },
                ZirStatement::Assertion(e) => match ZirPropagator::fold(e) {
                    Ok(ZirExpression::Value(Value::Boolean(true))) => Ok(None),
                    Ok(condition) => Ok(Some(ZirStatement::Assertion(condition))),
                    Err(err) => Err(err),
                },
            };
            match folded {
                Ok(Some(s)) => {
                    statements.push(s);
                },
                Ok(None) => {},
                Err(err) => {
                    proof {
                        assert(fold_statements(input.take(i + 1)) == Err::<
                            Seq<ZirStatement>,
                            Error,
                        >(err));
                        lemma_fold_statements_prefix_error(input, i + 1, err);
                    }
                    return Err(err);
                },
            }
            i += 1;
        }
        assert(input.take(p.statements.len() as int) =~= input);
        let ghost outputs = p.returns@;
        let mut results: Vec<ZirExpression> = Vec::new();
        let mut k: usize = 0;
        assert(outputs.take(0) =~= Seq::<ZirExpression>::empty());
        while k < p.returns.len()
            invariant
                k <= p.returns.len(),
                outputs == p.returns@,
                fold_expressions(outputs.take(k as int)) == Ok::<Seq<ZirExpression>, Error>(
                    results@,
                ),
            decreases p.returns.len() - k,
        {
            proof {
                assert(outputs.take(k + 1).drop_last() =~= outputs.take(k as int));
                assert(outputs.take(k + 1).last() == outputs[k as int]);
            }
            match ZirPropagator::fold(&p.returns[k]) {
                Ok(x) => {
                    results.push(x);
                },
                Err(err) => {
                    proof {
                        assert(fold_expressions(outputs.take(k + 1)) == Err::<
                            Seq<ZirExpression>,
                            Error,
                        >(err));
                        lemma_fold_expressions_prefix_error(outputs, k + 1, err);
                    }
                    return Err(err);
                },
            }
            k += 1;
        }
        assert(outputs.take(p.returns.len() as int) =~= outputs);
        Ok(ZirProgram { arguments: p.arguments, statements, returns: results })
    }
}

} // verus!
