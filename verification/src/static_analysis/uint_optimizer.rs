//! The removal of reductions of unsigned integers that are within their
//! range already.

use crate::typed_absy::operators::{effective_bits, power_of_two};
use crate::typed_absy::types::Value;
use crate::zir::{
    Number, ZirExpression, ZirProgram, ZirProgramView, ZirStatement, ZirType, ZirVariable,
    evaluate, well_typed,
};
use vstd::arithmetic::div_mod::{lemma_mod_bound, lemma_small_mod};
use vstd::arithmetic::power2::{lemma_pow2_pos, lemma_pow2_strictly_increases, pow2};
use vstd::prelude::*;

verus! {

/// Whether the form of an expression shows that the integer it stands for
/// is below two to the power of `bits`: a literal below that power, a
/// variable or a reduction of at most `bits` bits, or a conditional of two
/// such expressions.
pub open spec fn fits(e: ZirExpression, bits: nat) -> bool
    decreases e,
{
    match e {
        ZirExpression::Value(Value::Uint(_, x)) => x < pow2(bits),
        ZirExpression::Identifier(v) => match v.ty {
            ZirType::Uint(w) => effective_bits(w) <= bits,
            _ => false,
        },
        ZirExpression::Reduce(w, _) => effective_bits(w) <= bits,
        ZirExpression::IfElse(_, a, b) => fits(*a, bits) && fits(*b, bits),
        _ => false,
    }
}

/// The expression without the reductions of operands that are within range
/// already.
pub open spec fn optimize_expression(e: ZirExpression) -> ZirExpression
    decreases e,
{
    match e {
        ZirExpression::Value(_) => e,
        ZirExpression::Identifier(_) => e,
        ZirExpression::Not(a) => ZirExpression::Not(Box::new(optimize_expression(*a))),
        ZirExpression::Binary(op, a, b) => ZirExpression::Binary(
            op,
            Box::new(optimize_expression(*a)),
            Box::new(optimize_expression(*b)),
        ),
        ZirExpression::IfElse(c, a, b) => ZirExpression::IfElse(
            Box::new(optimize_expression(*c)),
            Box::new(optimize_expression(*a)),
            Box::new(optimize_expression(*b)),
        ),
        ZirExpression::Reduce(bits, a) => {
            let operand = optimize_expression(*a);
            if fits(operand, effective_bits(bits)) {
                operand
            } else {
                ZirExpression::Reduce(bits, Box::new(operand))
            }
        },
    }
}

/// The statement with its expression optimised.
pub open spec fn optimize_statement(s: ZirStatement) -> ZirStatement {
    match s {
        ZirStatement::Definition(v, e) => ZirStatement::Definition(v, optimize_expression(e)),
        ZirStatement::Assertion(e) => ZirStatement::Assertion(optimize_expression(e)),
    }
}

/// The program with each of its expressions optimised.
pub open spec fn optimize_program(p: ZirProgramView) -> ZirProgramView {
    ZirProgramView {
        arguments: p.arguments,
        statements: p.statements.map_values(|s: ZirStatement| optimize_statement(s)),
        returns: p.returns.map_values(|e: ZirExpression| optimize_expression(e)),
    }
}

/// An expression that fits stands for an integer within the range, or for
/// nothing.
pub proof fn lemma_fits(env: Map<ZirVariable, Number>, e: ZirExpression, bits: nat)
    requires
        well_typed(env),
        fits(e, bits),
    ensures
        match evaluate(env, e) {
            Number::Integer(x) => 0 <= x < pow2(bits),
            Number::Undefined => true,
            _ => false,
        },
    decreases e,
{
    match e {
        ZirExpression::Identifier(v) => {
            if env.contains_key(v) {
                let w = effective_bits(v.ty->Uint_0);
                if w < bits {
                    lemma_pow2_strictly_increases(w, bits);
                }
            }
        },
        ZirExpression::Reduce(w, a) => {
            let m = effective_bits(w);
            lemma_pow2_pos(m);
            if let Number::Integer(x) = evaluate(env, *a) {
                lemma_mod_bound(x, pow2(m) as int);
            }
            if m < bits {
                lemma_pow2_strictly_increases(m, bits);
            }
        },
        ZirExpression::IfElse(_, a, b) => {
            lemma_fits(env, *a, bits);
            lemma_fits(env, *b, bits);
        },
        _ => {},
    }
}

/// The optimisation preserves what expressions stand for: with variables
/// that stand for values of their types, the optimised expression stands
/// for what the expression stands for.
pub proof fn lemma_optimize_preserves_value(env: Map<ZirVariable, Number>, e: ZirExpression)
    requires
        well_typed(env),
    ensures
        evaluate(env, optimize_expression(e)) == evaluate(env, e),
    decreases e,
{
    match e {
        ZirExpression::Not(a) => {
            lemma_optimize_preserves_value(env, *a);
        },
        ZirExpression::Binary(_, a, b) => {
            lemma_optimize_preserves_value(env, *a);
            lemma_optimize_preserves_value(env, *b);
        },
        ZirExpression::IfElse(c, a, b) => {
            lemma_optimize_preserves_value(env, *c);
            lemma_optimize_preserves_value(env, *a);
            lemma_optimize_preserves_value(env, *b);
        },
        ZirExpression::Reduce(bits, a) => {
            lemma_optimize_preserves_value(env, *a);
            let operand = optimize_expression(*a);
            let m = effective_bits(bits);
            if fits(operand, m) {
                lemma_fits(env, operand, m);
                if let Number::Integer(x) = evaluate(env, operand) {
                    lemma_small_mod(x as nat, pow2(m));
                }
            }
        },
        _ => {},
    }
}

/// Whether the form of `e` shows that the integer it stands for is below
/// two to the power of `bits`.
fn fits_in(e: &ZirExpression, bits: u8) -> (r: bool)
    requires
        bits <= 64,
    ensures
        r == fits(*e, bits as nat),
    decreases e,
{
    match e {
        ZirExpression::Value(Value::Uint(_, x)) => {
            let bound = power_of_two(bits);
            (*x as u128) < bound
        },
        ZirExpression::Identifier(v) => match v.ty {
            ZirType::Uint(w) => width(w) <= bits,
            _ => false,
        },
        ZirExpression::Reduce(w, _) => width(*w) <= bits,
        ZirExpression::IfElse(_, a, b) => fits_in(a, bits) && fits_in(b, bits),
        _ => false,
    }
}

/// The number of bits that an unsigned integer of the given type holds.
fn width(bits: u8) -> (r: u8)
    ensures
        r == effective_bits(bits),
        r <= 64,
{
    if bits > 64 {
        64
    } else {
        bits
    }
}

/// The removal of reductions of unsigned integers that are within their
/// range already.
#[derive(Debug, Clone, Copy)]
pub struct UintOptimizer;

impl UintOptimizer {
    /// The expression without the reductions of operands that are within
    /// range already.
    pub fn optimize_expression(e: &ZirExpression) -> (r: ZirExpression)
        ensures
            r == optimize_expression(*e),
        decreases e,
    {
        match e {
            ZirExpression::Value(v) => ZirExpression::Value(*v),
            ZirExpression::Identifier(v) => ZirExpression::Identifier(*v),
            ZirExpression::Not(a) => ZirExpression::Not(
                Box::new(UintOptimizer::optimize_expression(a)),
            ),
            ZirExpression::Binary(op, a, b) => ZirExpression::Binary(
                *op,
                Box::new(UintOptimizer::optimize_expression(a)),
                Box::new(UintOptimizer::optimize_expression(b)),
            ),
            ZirExpression::IfElse(c, a, b) => ZirExpression::IfElse(
                Box::new(UintOptimizer::optimize_expression(c)),
                Box::new(UintOptimizer::optimize_expression(a)),
                Box::new(UintOptimizer::optimize_expression(b)),
            ),
            ZirExpression::Reduce(bits, a) => {
                let operand = UintOptimizer::optimize_expression(a);
                if fits_in(&operand, width(*bits)) {
                    operand
                } else {
                    ZirExpression::Reduce(*bits, Box::new(operand))
                }
            },
        }
    }

    /// The program with each of its expressions optimised.
    pub fn optimize(p: ZirProgram) -> (r: ZirProgram)
        ensures
            r@ == optimize_program(p@),
    {
        let mut statements: Vec<ZirStatement> = Vec::new();
        let mut i: usize = 0;
        while i < p.statements.len()
            invariant
                i <= p.statements.len(),
                statements@.len() == i,
                forall|j: int|
                    0 <= j < i ==> statements@[j] == optimize_statement(p.statements@[j]),
            decreases p.statements.len() - i,
        {
            let s = match &p.statements[i] {
                ZirStatement::Definition(v, e) => ZirStatement::Definition(
                    *v,
                    UintOptimizer::optimize_expression(e),
                ),
                ZirStatement::Assertion(e) => ZirStatement::Assertion(
                    UintOptimizer::optimize_expression(e),
                ),
            };
            statements.push(s);
            i += 1;
        }
        let mut results: Vec<ZirExpression> = Vec::new();
        let mut k: usize = 0;
        while k < p.returns.len()
            invariant
                k <= p.returns.len(),
                results@.len() == k,
                forall|j: int| 0 <= j < k ==> results@[j] == optimize_expression(p.returns@[j]),
            decreases p.returns.len() - k,
        {
            results.push(UintOptimizer::optimize_expression(&p.returns[k]));
            k += 1;
        }
        let r = ZirProgram { arguments: p.arguments, statements, returns: results };
        assert(r@.statements =~= optimize_program(p@).statements);
        assert(r@.returns =~= optimize_program(p@).returns);
        r
    }
}

} // verus!
