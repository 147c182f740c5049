//! What the flattening preserves. The flattening of a scalar expression
//! leaves its value as it is: the wrapping operators of the typed tier
//! become exact operators under a reduction, and stand for the same integer.
//! The blend that stands for a selection stands for the element at the
//! index, and the comparison of two flattened values holds where each scalar
//! equals its counterpart.

use crate::field::{FieldElement, modulus, quotient};
use crate::static_analysis::flatten_complex_types::{
    all_equal, chosen, flatten_expression, leaf, position, scalar_operation, variable_leaf,
};
use crate::static_analysis::propagation::{
    Constants, has_proper_literals, is_proper, lemma_value_is_proper, value_in,
};
use crate::typed_absy::abi::type_of;
use crate::typed_absy::operators::{BinaryOp, binary_value, effective_bits, uint_modulus};
use crate::typed_absy::types::{Type, Value, Variable};
use crate::typed_absy::ExpressionView;
use crate::zir::{
    Number, ZirExpression, ZirType, ZirVariable, evaluate, number_of, scalar_of,
};
use vstd::arithmetic::div_mod::{
    lemma_basic_div, lemma_div_basics, lemma_div_is_ordered_by_denominator, lemma_div_pos_is_pos,
    lemma_mod_bound, lemma_mod_multiples_basic, lemma_small_mod,
};
use vstd::arithmetic::power2::{
    lemma2_to64, lemma2_to64_rest, lemma_pow2_adds, lemma_pow2_pos,
    lemma_pow2_strictly_increases, pow2,
};
use vstd::prelude::*;

verus! {

/// Whether a type is that of a scalar.
pub open spec fn is_scalar(ty: Type) -> bool {
    !(ty is Array)
}

/// Whether an expression is made of literals, scalar variables and
/// operators whose operands are of one type.
pub open spec fn is_scalar_expression(e: ExpressionView) -> bool
    decreases e,
{
    match e {
        ExpressionView::Value(_) => true,
        ExpressionView::Identifier(v) => is_scalar(v.ty),
        ExpressionView::Not(a) => is_scalar_expression(*a) && type_of(*a) == Type::Boolean,
        ExpressionView::Binary(_, a, b) => is_scalar_expression(*a) && is_scalar_expression(*b)
            && type_of(*a) == type_of(*b),
        ExpressionView::IfElse(c, a, b, _) => is_scalar_expression(*c) && is_scalar_expression(*a)
            && is_scalar_expression(*b) && type_of(*c) == Type::Boolean && type_of(*a)
            == type_of(*b),
        _ => false,
    }
}

/// Whether every value is one of its type, and each scalar variable that
/// has a value has a value of the type of the variable and stands in the
/// flat tier for what that value stands for.
pub open spec fn mirrors(state: Constants, env: Map<ZirVariable, Number>) -> bool {
    &&& forall|k: u128| #[trigger] state.contains_key(k) ==> is_proper(state[k])
    &&& forall|v: Variable| #[trigger]
        state.contains_key(v.key()) && is_scalar(v.ty) ==> {
            &&& state[v.key()].type_of() == v.ty
            &&& env.contains_key(variable_leaf(v, 0))
            &&& env[variable_leaf(v, 0)] == number_of(state[v.key()])
        }
}

/// The value of a scalar expression is of the type of the expression.
proof fn lemma_value_has_type(state: Constants, env: Map<ZirVariable, Number>, e: ExpressionView)
    requires
        is_scalar_expression(e),
        mirrors(state, env),
    ensures
        value_in(state, e) matches Some(v) ==> v.type_of() == type_of(e),
    decreases e,
{
    match e {
        ExpressionView::Identifier(v) => {
            if state.contains_key(v.key()) {
                assert(state[v.key()].type_of() == v.ty);
            }
        },
        ExpressionView::Not(a) => {
            lemma_value_has_type(state, env, *a);
        },
        ExpressionView::Binary(_, a, b) => {
            lemma_value_has_type(state, env, *a);
            lemma_value_has_type(state, env, *b);
        },
        ExpressionView::IfElse(c, a, b, _) => {
            lemma_value_has_type(state, env, *a);
            lemma_value_has_type(state, env, *b);
        },
        _ => {},
    }
}

/// Two to the power of a number of bits of an unsigned integer type is at
/// most two to the power of 64.
proof fn lemma_modulus_bound(bits: u8)
    ensures
        0 < uint_modulus(bits) <= 0x1_0000_0000_0000_0000,
        pow2(64) == 0x1_0000_0000_0000_0000,
{
    lemma2_to64();
    lemma2_to64_rest();
    lemma_pow2_pos(effective_bits(bits));
    if effective_bits(bits) < 64 {
        lemma_pow2_strictly_increases(effective_bits(bits), 64);
    }
}

/// An operator of the flat tier, under a reduction where it can leave the
/// range, stands for what the operator of the typed tier makes of two
/// values of one type.
proof fn lemma_scalar_operation(
    env: Map<ZirVariable, Number>,
    op: BinaryOp,
    x: Value,
    y: Value,
    left: ZirExpression,
    right: ZirExpression,
)
    requires
        op != BinaryOp::Eq,
        is_proper(x),
        is_proper(y),
        evaluate(env, left) == number_of(x),
        evaluate(env, right) == number_of(y),
        binary_value(op, x, y) is Some,
    ensures
        evaluate(env, scalar_operation(op, x.type_of(), left, right)) == number_of(
            binary_value(op, x, y)->Some_0,
        ),
{
    reveal_with_fuel(evaluate, 2);
    match (x, y) {
        (Value::Uint(w, a), Value::Uint(_, b)) => {
            let m = uint_modulus(w) as int;
            lemma_modulus_bound(w);
            lemma_mod_bound(a + b, m);
            lemma_mod_bound(a - b, m);
            lemma_mod_bound(a * b, m);
            if op == BinaryOp::Div || op == BinaryOp::Rem {
                lemma_div_pos_is_pos(a as int, b as int);
                lemma_div_is_ordered_by_denominator(a as int, 1, b as int);
                lemma_div_basics(a as int);
                lemma_mod_bound(a as int, b as int);
                lemma_small_mod((a / b) as nat, m as nat);
                lemma_small_mod((a % b) as nat, m as nat);
            }
            if op == BinaryOp::LeftShift {
                if b >= 64 {
                    let e = effective_bits(w);
                    lemma_pow2_adds(e, (b - e) as nat);
                    lemma_mod_multiples_basic(a * pow2((b - e) as nat), m);
                    assert(a * pow2(b as nat) == (a * pow2((b - e) as nat)) * m)
                        by (nonlinear_arith)
                        requires
                            pow2(b as nat) == pow2(e) * pow2((b - e) as nat),
                            m == pow2(e),
                    ;
                } else {
                    lemma_mod_bound(a * pow2(b as nat), m);
                }
            }
            if op == BinaryOp::RightShift {
                lemma_pow2_pos(b as nat);
                if b >= 64 {
                    if b > 64 {
                        lemma_pow2_strictly_increases(64, b as nat);
                    }
                    lemma_basic_div(a as int, pow2(b as nat) as int);
                } else {
                    let d = pow2(b as nat) as int;
                    lemma_div_pos_is_pos(a as int, d);
                    lemma_div_is_ordered_by_denominator(a as int, 1, d);
                    lemma_div_basics(a as int);
                    lemma_small_mod((a as int / d) as nat, m as nat);
                }
            }
        },
        (Value::Field(a), Value::Field(b)) => {
            if op == BinaryOp::Add {
                FieldElement::lemma_from_nat((a@ + b@) % modulus());
            } else if op == BinaryOp::Sub {
                FieldElement::lemma_from_nat(((a@ - b@) % (modulus() as int)) as nat);
            } else if op == BinaryOp::Mul {
                FieldElement::lemma_from_nat((a@ * b@) % modulus());
            } else if op == BinaryOp::Div {
                FieldElement::lemma_from_nat(quotient(a@, b@)->Some_0);
            }
        },
        _ => {},
    }
}

/// Flattening preserves the values of scalar expressions: the one
/// expression of the flat tier that a scalar expression with a value
/// becomes stands for that value.
pub proof fn lemma_flattening_preserves_value(
    state: Constants,
    env: Map<ZirVariable, Number>,
    e: ExpressionView,
)
    requires
        is_scalar_expression(e),
        has_proper_literals(e),
        mirrors(state, env),
    ensures
        flatten_expression(e).len() == 1,
        value_in(state, e) matches Some(v) ==> evaluate(env, flatten_expression(e)[0])
            == number_of(v),
    decreases e,
{
    match e {
        ExpressionView::Identifier(v) => {
            if state.contains_key(v.key()) {
                assert(env[variable_leaf(v, 0)] == number_of(state[v.key()]));
            }
        },
        ExpressionView::Not(a) => {
            lemma_flattening_preserves_value(state, env, *a);
        },
        ExpressionView::Binary(op, a, b) => {
            lemma_flattening_preserves_value(state, env, *a);
            lemma_flattening_preserves_value(state, env, *b);
            lemma_value_has_type(state, env, *a);
            lemma_value_is_proper(state, *a);
            lemma_value_is_proper(state, *b);
            if let (Some(x), Some(y)) = (value_in(state, *a), value_in(state, *b)) {
                if binary_value(op, x, y) is Some {
                    let ty = scalar_of(type_of(*a));
                    let left = leaf(flatten_expression(*a), 0, ty);
                    let right = leaf(flatten_expression(*b), 0, ty);
                    if op == BinaryOp::Eq {
                        reveal_with_fuel(all_equal, 2);
                    } else {
                        lemma_scalar_operation(env, op, x, y, left, right);
                    }
                }
            }
        },
        ExpressionView::IfElse(c, a, b, _) => {
            lemma_flattening_preserves_value(state, env, *c);
            lemma_flattening_preserves_value(state, env, *a);
            lemma_flattening_preserves_value(state, env, *b);
        },
        _ => {},
    }
}

/// The blend selects the element at the index: where the index stands for
/// the position of an element of the array, the scalar that is chosen among
/// the elements from `j` on stands for the scalar of that element.
pub proof fn lemma_chosen_element(
    env: Map<ZirVariable, Number>,
    fa: Seq<ZirExpression>,
    index: ZirExpression,
    ty: ZirType,
    m: u32,
    k: u32,
    n: u32,
    j: u32,
    target: u32,
)
    requires
        evaluate(env, index) == Number::Integer(target as int),
        j <= target < n,
    ensures
        evaluate(env, chosen(fa, index, ty, m, k, n, j)) == evaluate(
            env,
            leaf(fa, target * m + k, ty),
        ),
    decreases n - j,
{
    if j < n - 1 {
        let condition = ZirExpression::Binary(
            BinaryOp::Eq,
            Box::new(index),
            Box::new(position(j)),
        );
        assert(evaluate(env, position(j)) == Number::Integer(j as int));
        assert(evaluate(env, condition) == Number::Boolean(target == j));
        if target != j {
            lemma_chosen_element(env, fa, index, ty, m, k, n, (j + 1) as u32, target);
        }
    }
}

/// Whether two numbers are of one kind.
pub open spec fn comparable(a: Number, b: Number) -> bool {
    match (a, b) {
        (Number::Boolean(_), Number::Boolean(_)) => true,
        (Number::Integer(_), Number::Integer(_)) => true,
        (Number::Field(_), Number::Field(_)) => true,
        _ => false,
    }
}

/// The comparison of two flattened values holds where each of the first
/// `n` scalars of the one stands for what its counterpart stands for.
pub proof fn lemma_all_equal(
    env: Map<ZirVariable, Number>,
    fa: Seq<ZirExpression>,
    fb: Seq<ZirExpression>,
    ty: ZirType,
    n: nat,
)
    requires
        forall|i: int|
            0 <= i < n ==> comparable(
                evaluate(env, #[trigger] leaf(fa, i, ty)),
                evaluate(env, leaf(fb, i, ty)),
            ),
    ensures
        evaluate(env, all_equal(fa, fb, ty, n)) == Number::Boolean(
            forall|i: int|
                0 <= i < n ==> evaluate(env, #[trigger] leaf(fa, i, ty)) == evaluate(
                    env,
                    leaf(fb, i, ty),
                ),
        ),
    decreases n,
{
    if n > 0 {
        let x = evaluate(env, leaf(fa, n - 1, ty));
        let y = evaluate(env, leaf(fb, n - 1, ty));
        assert(comparable(x, y));
        let last = ZirExpression::Binary(
            BinaryOp::Eq,
            Box::new(leaf(fa, n - 1, ty)),
            Box::new(leaf(fb, n - 1, ty)),
        );
        assert(evaluate(env, last) == Number::Boolean(x == y));
        if n > 1 {
            lemma_all_equal(env, fa, fb, ty, (n - 1) as nat);
        }
    }
}

} // verus!
