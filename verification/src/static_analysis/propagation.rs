//! Constant folding and the propagation of known values.

use crate::field::{FieldElement, modulus, quotient};
use crate::typed_absy::operators::{
    BinaryOp, apply_binary, binary_value, divides_by_zero, effective_bits, uint_modulus,
};
use crate::typed_absy::types::{Value, Variable};
use crate::typed_absy::{
    AssigneeView, ExpressionView, FunctionView, ProgramView, StatementView, TypedAssignee,
    TypedExpression, TypedFunction, TypedProgram, TypedStatement, base_variable, clone_parameters,
    clone_statements, expressions_view, functions_view, statements_view,
};
use std::collections::HashMap;
use vstd::arithmetic::div_mod::{lemma_mod_bound, lemma_small_mod};
use vstd::arithmetic::power2::{
    lemma2_to64, lemma2_to64_rest, lemma_pow2_pos, lemma_pow2_strictly_increases, pow2,
};
use vstd::prelude::*;

verus! {

/// Why a program cannot be propagated.
#[derive(Debug, Clone, Copy, PartialEq, Eq, Structural)]
pub enum Error {
    /// A division or a remainder whose second operand is a literal zero.
    DivisionByZero,
}

impl Error {
    /// The error in words.
    pub fn message(&self) -> (r: String)
        ensures
            r@ == "division by zero"@,
    {
        "division by zero".to_string()
    }
}

/// The values that variables are known to hold, by the key of the variable.
pub type Constants = Map<u128, Value>;

/// Whether a value is the zero of its type.
pub open spec fn is_zero_value(v: Value) -> bool {
    match v {
        Value::Uint(_, x) => x == 0,
        Value::Field(x) => x@ == 0,
        Value::Boolean(_) => false,
    }
}

/// Whether a value is the one of its type.
pub open spec fn is_one_value(v: Value) -> bool {
    match v {
        Value::Uint(_, x) => x == 1,
        Value::Field(x) => x@ == 1,
        Value::Boolean(_) => false,
    }
}

/// What an operator applied to two folded operands folds to: the result
/// where both are literals and the operator has one; the other operand
/// where one is the neutral literal of a sum or a product; the operator
/// applied to the operands otherwise. A division by a literal zero has no
/// folded form.
pub open spec fn combine(op: BinaryOp, a: ExpressionView, b: ExpressionView) -> Result<
    ExpressionView,
    Error,
> {
    let unfolded = ExpressionView::Binary(op, Box::new(a), Box::new(b));
    match (a, b) {
        (_, ExpressionView::Value(y)) => if divides_by_zero(op, y) {
            Err(Error::DivisionByZero)
        } else {
            match a {
                ExpressionView::Value(x) => match binary_value(op, x, y) {
                    Some(v) => Ok(ExpressionView::Value(v)),
                    None => Ok(unfolded),
                },
                _ => if (op == BinaryOp::Add || op == BinaryOp::Sub) && is_zero_value(y) {
                    Ok(a)
                } else if op == BinaryOp::Mul && is_one_value(y) {
                    Ok(a)
                } else {
                    Ok(unfolded)
                },
            }
        },
        (ExpressionView::Value(x), _) => if op == BinaryOp::Add && is_zero_value(x) {
            Ok(b)
        } else if op == BinaryOp::Mul && is_one_value(x) {
            Ok(b)
        } else {
            Ok(unfolded)
        },
        _ => Ok(unfolded),
    }
}

/// The folded form of an expression, given the values that variables are
/// known to hold: every operator whose operands fold to literals is replaced
/// by its result, every variable of known value by that value, every
/// conditional of known condition by the branch that is taken, and every
/// selection at a literal index from an array that is written out by the
/// element.
pub open spec fn fold_expression(env: Constants, e: ExpressionView) -> Result<
    ExpressionView,
    Error,
>
    decreases e,
{
    match e {
        ExpressionView::Value(_) => Ok(e),
        ExpressionView::Identifier(v) => if env.contains_key(v.key()) {
            Ok(ExpressionView::Value(env[v.key()]))
        } else {
            Ok(e)
        },
        ExpressionView::Constant(_, _) => Ok(e),
        ExpressionView::Not(a) => match fold_expression(env, *a) {
            Err(err) => Err(err),
            Ok(ExpressionView::Value(Value::Boolean(x))) => Ok(
                ExpressionView::Value(Value::Boolean(!x)),
            ),
            Ok(folded) => Ok(ExpressionView::Not(Box::new(folded))),
        },
        ExpressionView::Binary(op, a, b) => match fold_expression(env, *a) {
            Err(err) => Err(err),
            Ok(left) => match fold_expression(env, *b) {
                Err(err) => Err(err),
                Ok(right) => combine(op, left, right),
            },
        },
        ExpressionView::IfElse(c, a, b, isolated) => match fold_expression(env, *c) {
            Err(err) => Err(err),
            Ok(ExpressionView::Value(Value::Boolean(x))) => if x {
                fold_expression(env, *a)
            } else {
                fold_expression(env, *b)
            },
            Ok(condition) => match fold_expression(env, *a) {
                Err(err) => Err(err),
                Ok(consequence) => match fold_expression(env, *b) {
                    Err(err) => Err(err),
                    Ok(alternative) => Ok(
                        ExpressionView::IfElse(
                            Box::new(condition),
                            Box::new(consequence),
                            Box::new(alternative),
                            isolated,
                        ),
                    ),
                },
            },
        },
        ExpressionView::Call(f, args, ty) => match fold_expressions(env, args) {
            Err(err) => Err(err),
            Ok(folded) => Ok(ExpressionView::Call(f, folded, ty)),
        },
        ExpressionView::Array(ty, elements) => match fold_expressions(env, elements) {
            Err(err) => Err(err),
            Ok(folded) => Ok(ExpressionView::Array(ty, folded)),
        },
        ExpressionView::Select(a, i) => match fold_expression(env, *a) {
            Err(err) => Err(err),
            Ok(array) => match fold_expression(env, *i) {
                Err(err) => Err(err),
                Ok(index) => Ok(select(array, index)),
            },
        },
    }
}

/// The element of a folded array at a folded index: the element itself
/// where the array is written out and the index is a literal within it, the
/// selection otherwise.
pub open spec fn select(array: ExpressionView, index: ExpressionView) -> ExpressionView {
    match (array, index) {
        (ExpressionView::Array(_, elements), ExpressionView::Value(Value::Uint(_, k))) => if k
            < elements.len() {
            elements[k as int]
        } else {
            ExpressionView::Select(Box::new(array), Box::new(index))
        },
        _ => ExpressionView::Select(Box::new(array), Box::new(index)),
    }
}

/// The folded forms of a list of expressions, or the error of the first
/// that has none.
pub open spec fn fold_expressions(env: Constants, es: Seq<ExpressionView>) -> Result<
    Seq<ExpressionView>,
    Error,
>
    decreases es,
{
    if es.len() == 0 {
        Ok(Seq::empty())
    } else {
        match fold_expressions(env, es.drop_last()) {
            Err(err) => Err(err),
            Ok(folded) => match fold_expression(env, es.last()) {
                Err(err) => Err(err),
                Ok(last) => Ok(folded.push(last)),
            },
        }
    }
}

/// Whether an expression is made of literals and of operators on scalars
/// alone.
pub open spec fn is_literal_expression(e: ExpressionView) -> bool
    decreases e,
{
    match e {
        ExpressionView::Value(_) => true,
        ExpressionView::Not(a) => is_literal_expression(*a),
        ExpressionView::Binary(_, a, b) => is_literal_expression(*a) && is_literal_expression(*b),
        ExpressionView::IfElse(c, a, b, _) => is_literal_expression(*c) && is_literal_expression(*a)
            && is_literal_expression(*b),
        _ => false,
    }
}

/// The value of an expression that is made of literals: what its operators
/// make of the values of their operands, a conditional having the value of
/// the branch that its condition picks. There is none where an operator has
/// no result.
pub open spec fn value_of(e: ExpressionView) -> Option<Value>
    decreases e,
{
    match e {
        ExpressionView::Value(v) => Some(v),
        ExpressionView::Not(a) => match value_of(*a) {
            Some(Value::Boolean(x)) => Some(Value::Boolean(!x)),
            _ => None,
        },
        ExpressionView::Binary(op, a, b) => match (value_of(*a), value_of(*b)) {
            (Some(x), Some(y)) => binary_value(op, x, y),
            _ => None,
        },
        ExpressionView::IfElse(c, a, b, _) => match value_of(*c) {
            Some(Value::Boolean(x)) => if x {
                value_of(*a)
            } else {
                value_of(*b)
            },
            _ => None,
        },
        _ => None,
    }
}

/// Folding preserves values: an expression made of literals folds to an
/// expression of the same value, and to the literal of its value where it
/// has one. Where the folding fails, the expression has no value.
pub proof fn lemma_folding_preserves_value(e: ExpressionView)
    requires
        is_literal_expression(e),
    ensures
        match fold_expression(Map::empty(), e) {
            Ok(folded) => is_literal_expression(folded) && value_of(folded) == value_of(e),
            Err(_) => value_of(e).is_none(),
        },
        match value_of(e) {
            Some(v) => fold_expression(Map::empty(), e) == Ok::<ExpressionView, Error>(
                ExpressionView::Value(v),
            ),
            None => !(fold_expression(Map::empty(), e) matches Ok(ExpressionView::Value(_))),
        },
    decreases e,
{
    let env: Constants = Map::empty();
    match e {
        ExpressionView::Value(_) => {},
        ExpressionView::Not(a) => {
            lemma_folding_preserves_value(*a);
        },
        ExpressionView::Binary(op, a, b) => {
            lemma_folding_preserves_value(*a);
            lemma_folding_preserves_value(*b);
            match (fold_expression(env, *a), fold_expression(env, *b)) {
                (Ok(left), Ok(right)) => {
                    lemma_combine(op, left, right);
                },
                _ => {},
            }
        },
        ExpressionView::IfElse(c, a, b, _) => {
            lemma_folding_preserves_value(*c);
            lemma_folding_preserves_value(*a);
            lemma_folding_preserves_value(*b);
        },
        _ => {},
    }
}

/// What `combine` makes of two folded operands has the value of the
/// operator applied to them.
proof fn lemma_combine(op: BinaryOp, a: ExpressionView, b: ExpressionView)
    requires
        is_literal_expression(a),
        is_literal_expression(b),
        value_of(a) is Some ==> a is Value,
        value_of(b) is Some ==> b is Value,
    ensures
        match combine(op, a, b) {
            Ok(folded) => is_literal_expression(folded) && value_of(folded) == value_of(
                ExpressionView::Binary(op, Box::new(a), Box::new(b)),
            ) && (folded is Value ==> value_of(folded) is Some),
            Err(_) => value_of(ExpressionView::Binary(op, Box::new(a), Box::new(b))).is_none(),
        },
        value_of(ExpressionView::Binary(op, Box::new(a), Box::new(b))) matches Some(v)
            ==> combine(op, a, b) == Ok::<ExpressionView, Error>(ExpressionView::Value(v)),
{
}

/// Whether a value is one of its type: an unsigned integer within the range
/// of its number of bits, a field element below the modulus.
pub open spec fn is_proper(v: Value) -> bool {
    match v {
        Value::Boolean(_) => true,
        Value::Uint(bits, x) => x < uint_modulus(bits),
        Value::Field(x) => x@ < modulus(),
    }
}

/// Whether every literal of an expression is a value of its type.
pub open spec fn has_proper_literals(e: ExpressionView) -> bool
    decreases e,
{
    match e {
        ExpressionView::Value(v) => is_proper(v),
        ExpressionView::Not(a) => has_proper_literals(*a),
        ExpressionView::Binary(_, a, b) => has_proper_literals(*a) && has_proper_literals(*b),
        ExpressionView::IfElse(c, a, b, _) => has_proper_literals(*c) && has_proper_literals(*a)
            && has_proper_literals(*b),
        ExpressionView::Select(a, i) => has_proper_literals(*a) && has_proper_literals(*i),
        ExpressionView::Call(_, args, _) => forall|k: int|
            0 <= k < args.len() ==> has_proper_literals(#[trigger] args[k]),
        ExpressionView::Array(_, elements) => forall|k: int|
            0 <= k < elements.len() ==> has_proper_literals(#[trigger] elements[k]),
        _ => true,
    }
}

/// The value of a scalar expression, given the values of its variables:
/// what its operators make of the values of their operands, a conditional
/// having the value of the branch that its condition picks. There is none
/// where a variable has none, where an operator has no result, and for
/// arrays, calls and named constants.
pub open spec fn value_in(values: Constants, e: ExpressionView) -> Option<Value>
    decreases e,
{
    match e {
        ExpressionView::Value(v) => Some(v),
        ExpressionView::Identifier(v) => if values.contains_key(v.key()) {
            Some(values[v.key()])
        } else {
            None
        },
        ExpressionView::Not(a) => match value_in(values, *a) {
            Some(Value::Boolean(x)) => Some(Value::Boolean(!x)),
            _ => None,
        },
        ExpressionView::Binary(op, a, b) => match (value_in(values, *a), value_in(values, *b)) {
            (Some(x), Some(y)) => binary_value(op, x, y),
            _ => None,
        },
        ExpressionView::IfElse(c, a, b, _) => match value_in(values, *c) {
            Some(Value::Boolean(x)) => if x {
                value_in(values, *a)
            } else {
                value_in(values, *b)
            },
            _ => None,
        },
        _ => None,
    }
}

/// Whether what is known of variables is true of their values, and every
/// value is one of its type.
pub open spec fn agrees(env: Constants, values: Constants) -> bool {
    &&& forall|k: u128| #[trigger] env.contains_key(k) ==> values.contains_key(k) && values[k] == env[k]
    &&& forall|k: u128| #[trigger] values.contains_key(k) ==> is_proper(values[k])
}

/// The sum of two literals is a value of its type.
pub proof fn lemma_sum_is_proper(c1: Value, c2: Value)
    ensures
        binary_value(BinaryOp::Add, c1, c2) matches Some(v) ==> is_proper(v),
{
    lemma_binary_value_is_proper(BinaryOp::Add, c1, c2);
}

/// What an operator makes of two values is a value of its type.
proof fn lemma_binary_value_is_proper(op: BinaryOp, x: Value, y: Value)
    ensures
        binary_value(op, x, y) matches Some(v) ==> is_proper(v),
{
    match (x, y) {
        (Value::Uint(w, a), Value::Uint(v, b)) => {
            if w == v {
                let m = uint_modulus(w) as int;
                lemma_pow2_pos(
                    effective_bits(w),
                );
                lemma2_to64();
                lemma2_to64_rest();
                if effective_bits(w) < 64 {
                    lemma_pow2_strictly_increases(
                        effective_bits(w),
                        64,
                    );
                }
                lemma_mod_bound(a + b, m);
                lemma_mod_bound(a - b, m);
                lemma_mod_bound(a * b, m);
                if b != 0 {
                    lemma_mod_bound(a as int / b as int, m);
                    lemma_mod_bound(a as int % b as int, m);
                }
                if b < 64 {
                    lemma_mod_bound(
                        a * pow2(b as nat),
                        m,
                    );
                    lemma_mod_bound(
                        a as int / pow2(b as nat) as int,
                        m,
                    );
                }
            }
        },
        (Value::Field(a), Value::Field(b)) => {
            if let Some(Value::Field(r)) = binary_value(op, x, y) {
                if op == BinaryOp::Add {
                    FieldElement::lemma_from_nat((a@ + b@) % modulus());
                } else if op == BinaryOp::Sub {
                    FieldElement::lemma_from_nat(((a@ - b@) % (modulus() as int)) as nat);
                } else if op == BinaryOp::Mul {
                    FieldElement::lemma_from_nat((a@ * b@) % modulus());
                } else if op == BinaryOp::Div {
                    FieldElement::lemma_from_nat(quotient(a@, b@)->Some_0);
                }
            }
        },
        _ => {},
    }
}

/// The value of an expression is a value of its type.
pub proof fn lemma_value_is_proper(values: Constants, e: ExpressionView)
    requires
        forall|k: u128| #[trigger] values.contains_key(k) ==> is_proper(values[k]),
        has_proper_literals(e),
    ensures
        value_in(values, e) matches Some(v) ==> is_proper(v),
    decreases e,
{
    match e {
        ExpressionView::Not(a) => {
            lemma_value_is_proper(values, *a);
        },
        ExpressionView::Binary(op, a, b) => {
            if let (Some(x), Some(y)) = (value_in(values, *a), value_in(values, *b)) {
                lemma_binary_value_is_proper(op, x, y);
            }
        },
        ExpressionView::IfElse(c, a, b, _) => {
            lemma_value_is_proper(values, *a);
            lemma_value_is_proper(values, *b);
        },
        _ => {},
    }
}

/// A neutral operand leaves a value of its type as it is.
proof fn lemma_neutral_operand(op: BinaryOp, x: Value, y: Value)
    requires
        is_proper(x),
        is_proper(y),
    ensures
        (op == BinaryOp::Add || op == BinaryOp::Sub) && is_zero_value(y) ==> (binary_value(
            op,
            x,
            y,
        ) matches Some(v) ==> v == x),
        op == BinaryOp::Mul && is_one_value(y) ==> (binary_value(op, x, y) matches Some(v) ==> v
            == x),
        op == BinaryOp::Add && is_zero_value(x) ==> (binary_value(op, x, y) matches Some(v) ==> v
            == y),
        op == BinaryOp::Mul && is_one_value(x) ==> (binary_value(op, x, y) matches Some(v) ==> v
            == y),
{
    match (x, y) {
        (Value::Uint(w, a), Value::Uint(v, b)) => {
            if w == v {
                let m = uint_modulus(w);
                lemma_small_mod(a as nat, m);
                lemma_small_mod(b as nat, m);
                assert(a * 1 == a);
                assert(1 * b == b);
            }
        },
        (Value::Field(a), Value::Field(b)) => {
            FieldElement::lemma_from_nat_view(a);
            FieldElement::lemma_from_nat_view(b);
            assert(a@ * 1 == a@);
            assert(1 * b@ == b@);
        },
        _ => {},
    }
}

/// What `combine` makes of two folded operands has the value of the
/// operator applied to them, where that has one.
proof fn lemma_combine_in(values: Constants, op: BinaryOp, left: ExpressionView, right: ExpressionView)
    requires
        forall|k: u128| #[trigger] values.contains_key(k) ==> is_proper(values[k]),
        has_proper_literals(left),
        has_proper_literals(right),
    ensures
        combine(op, left, right) matches Ok(folded) ==> has_proper_literals(folded) && (value_in(
            values,
            ExpressionView::Binary(op, Box::new(left), Box::new(right)),
        ) is Some ==> value_in(values, folded) == value_in(
            values,
            ExpressionView::Binary(op, Box::new(left), Box::new(right)),
        )),
{
    lemma_value_is_proper(values, left);
    lemma_value_is_proper(values, right);
    if let (Some(x), Some(y)) = (value_in(values, left), value_in(values, right)) {
        lemma_neutral_operand(op, x, y);
        lemma_binary_value_is_proper(op, x, y);
    }
}

/// Folding preserves values, whatever the variables hold: where what is
/// known of the variables is true of their values, the folded form of an
/// expression that has a value has that value.
pub proof fn lemma_folding_preserves_value_in(
    env: Constants,
    values: Constants,
    e: ExpressionView,
)
    requires
        agrees(env, values),
        has_proper_literals(e),
    ensures
        fold_expression(env, e) matches Ok(folded) ==> has_proper_literals(folded) && (value_in(
            values,
            e,
        ) is Some ==> value_in(values, folded) == value_in(values, e)),
    decreases e,
{
    match e {
        ExpressionView::Not(a) => {
            lemma_folding_preserves_value_in(env, values, *a);
        },
        ExpressionView::Identifier(v) => {
            if env.contains_key(v.key()) {
                assert(values.contains_key(v.key()));
                assert(is_proper(values[v.key()]));
            }
        },
        ExpressionView::Binary(op, a, b) => {
            lemma_folding_preserves_value_in(env, values, *a);
            lemma_folding_preserves_value_in(env, values, *b);
            if let (Ok(left), Ok(right)) = (fold_expression(env, *a), fold_expression(env, *b)) {
                lemma_combine_in(values, op, left, right);
            }
        },
        ExpressionView::IfElse(c, a, b, _) => {
            lemma_folding_preserves_value_in(env, values, *c);
            lemma_folding_preserves_value_in(env, values, *a);
            lemma_folding_preserves_value_in(env, values, *b);
        },
        ExpressionView::Call(_, args, _) => {
            lemma_folded_list_has_proper_literals(env, values, args);
        },
        ExpressionView::Array(_, elements) => {
            lemma_folded_list_has_proper_literals(env, values, elements);
        },
        ExpressionView::Select(a, i) => {
            lemma_folding_preserves_value_in(env, values, *a);
            lemma_folding_preserves_value_in(env, values, *i);
        },
        _ => {},
    }
}

/// The folded forms of expressions whose literals are values of their
/// types hold such literals alone.
proof fn lemma_folded_list_has_proper_literals(
    env: Constants,
    values: Constants,
    es: Seq<ExpressionView>,
)
    requires
        agrees(env, values),
        forall|k: int| 0 <= k < es.len() ==> has_proper_literals(#[trigger] es[k]),
    ensures
        fold_expressions(env, es) matches Ok(folded) ==> folded.len() == es.len() && forall|
            k: int,
        | 0 <= k < folded.len() ==> has_proper_literals(#[trigger] folded[k]),
    decreases es,
{
    if es.len() > 0 {
        let d = es.drop_last();
        assert forall|k: int| 0 <= k < d.len() implies has_proper_literals(#[trigger] d[k]) by {
            assert(d[k] == es[k]);
        }
        lemma_folded_list_has_proper_literals(env, values, d);
        assert(has_proper_literals(es[es.len() - 1]));
        lemma_folding_preserves_value_in(env, values, es.last());
        if let Ok(head) = fold_expressions(env, d) {
            if let Ok(last) = fold_expression(env, es.last()) {
                let folded = head.push(last);
                assert forall|k: int| 0 <= k < folded.len() implies has_proper_literals(
                    #[trigger] folded[k],
                ) by {
                    if k < head.len() {
                        assert(folded[k] == head[k]);
                    }
                }
            }
        }
    }
}

/// Whether folding leaves an expression as it is.
pub open spec fn is_folded(env: Constants, e: ExpressionView) -> bool {
    fold_expression(env, e) == Ok::<ExpressionView, Error>(e)
}

/// Folding leaves nothing to fold: the folded form of an expression is its
/// own folded form. So no operator with literal operands that has a result,
/// no variable of known value and no conditional of known condition is left
/// in it.
pub proof fn lemma_folding_is_idempotent(env: Constants, e: ExpressionView)
    ensures
        fold_expression(env, e) matches Ok(folded) ==> is_folded(env, folded),
    decreases e,
{
    match e {
        ExpressionView::Not(a) => {
            lemma_folding_is_idempotent(env, *a);
        },
        ExpressionView::Binary(op, a, b) => {
            lemma_folding_is_idempotent(env, *a);
            lemma_folding_is_idempotent(env, *b);
        },
        ExpressionView::IfElse(c, a, b, _) => {
            lemma_folding_is_idempotent(env, *c);
            lemma_folding_is_idempotent(env, *a);
            lemma_folding_is_idempotent(env, *b);
        },
        ExpressionView::Call(_, args, _) => {
            lemma_folding_list_is_idempotent(env, args);
        },
        ExpressionView::Array(_, elements) => {
            lemma_folding_list_is_idempotent(env, elements);
        },
        ExpressionView::Select(a, i) => {
            lemma_folding_is_idempotent(env, *a);
            lemma_folding_is_idempotent(env, *i);
            if let Ok(array) = fold_expression(env, *a) {
                if let Ok(index) = fold_expression(env, *i) {
                    if let ExpressionView::Array(_, elements) = array {
                        lemma_folded_elements(env, elements);
                    }
                }
            }
        },
        _ => {},
    }
}

/// Folding leaves nothing to fold in a list of expressions.
pub proof fn lemma_folding_list_is_idempotent(env: Constants, es: Seq<ExpressionView>)
    ensures
        fold_expressions(env, es) matches Ok(folded) ==> fold_expressions(env, folded) == Ok::<
            Seq<ExpressionView>,
            Error,
        >(folded),
    decreases es,
{
    if es.len() > 0 {
        lemma_folding_list_is_idempotent(env, es.drop_last());
        lemma_folding_is_idempotent(env, es.last());
        if let Ok(head) = fold_expressions(env, es.drop_last()) {
            if let Ok(last) = fold_expression(env, es.last()) {
                assert(head.push(last).drop_last() =~= head);
            }
        }
    }
}

/// Each expression of a list that folding leaves as it is, is left as it
/// is.
proof fn lemma_folded_elements(env: Constants, es: Seq<ExpressionView>)
    requires
        fold_expressions(env, es) == Ok::<Seq<ExpressionView>, Error>(es),
    ensures
        forall|k: int| 0 <= k < es.len() ==> is_folded(env, #[trigger] es[k]),
    decreases es.len(),
{
    if es.len() > 0 {
        let head = fold_expressions(env, es.drop_last())->Ok_0;
        let last = fold_expression(env, es.last())->Ok_0;
        assert(head.push(last) == es);
        assert(head =~= es.drop_last()) by {
            assert(head.push(last).drop_last() =~= head);
        }
        assert(last == es.last()) by {
            assert(head.push(last).last() == last);
        }
        lemma_folded_elements(env, es.drop_last());
        assert forall|k: int| 0 <= k < es.len() implies is_folded(env, #[trigger] es[k]) by {
            if k < es.len() - 1 {
                assert(es.drop_last()[k] == es[k]);
            }
        }
    }
}

/// What a folding returned, over views.
pub open spec fn folded_view(r: Result<TypedExpression, Error>) -> Result<ExpressionView, Error> {
    match r {
        Ok(e) => Ok(e@),
        Err(err) => Err(err),
    }
}

/// What the folding of a list returned, over views.
pub open spec fn folded_list_view(r: Result<Vec<TypedExpression>, Error>) -> Result<
    Seq<ExpressionView>,
    Error,
> {
    match r {
        Ok(es) => Ok(expressions_view(es@)),
        Err(err) => Err(err),
    }
}

fn is_zero(v: &Value) -> (r: bool)
    ensures
        r == is_zero_value(*v),
{
    match v {
        Value::Uint(_, x) => *x == 0,
        Value::Field(x) => x.is_zero(),
        Value::Boolean(_) => false,
    }
}

fn is_one(v: &Value) -> (r: bool)
    ensures
        r == is_one_value(*v),
{
    match v {
        Value::Uint(_, x) => *x == 1,
        Value::Field(x) => {
            let one = crate::field::FieldElement::one();
            *x == one
        },
        Value::Boolean(_) => false,
    }
}

/// The literal that an expression is, if it is one.
pub fn literal(e: &TypedExpression) -> (r: Option<Value>)
    ensures
        r == match e@ {
            ExpressionView::Value(v) => Some(v),
            _ => None,
        },
{
    match e {
        TypedExpression::Value(v) => Some(*v),
        _ => None,
    }
}

/// What an operator applied to two folded operands folds to.
pub fn combine_folded(op: BinaryOp, a: TypedExpression, b: TypedExpression) -> (r: Result<
    TypedExpression,
    Error,
>)
    ensures
        folded_view(r) == combine(op, a@, b@),
{
    let x = literal(&a);
    let y = literal(&b);
    match y {
        Some(y) => {
            if (op == BinaryOp::Div || op == BinaryOp::Rem) && is_zero(&y) {
                return Err(Error::DivisionByZero);
            }
            match x {
                Some(x) => match apply_binary(op, &x, &y) {
                    Some(v) => Ok(TypedExpression::Value(v)),
                    None => Ok(TypedExpression::Binary(op, Box::new(a), Box::new(b))),
                },
                None => {
                    if (op == BinaryOp::Add || op == BinaryOp::Sub) && is_zero(&y) {
                        Ok(a)
                    } else if op == BinaryOp::Mul && is_one(&y) {
                        Ok(a)
                    } else {
                        Ok(TypedExpression::Binary(op, Box::new(a), Box::new(b)))
                    }
                },
            }
        },
        None => match x {
            Some(x) => {
                if op == BinaryOp::Add && is_zero(&x) {
                    Ok(b)
                } else if op == BinaryOp::Mul && is_one(&x) {
                    Ok(b)
                } else {
                    Ok(TypedExpression::Binary(op, Box::new(a), Box::new(b)))
                }
            },
            None => Ok(TypedExpression::Binary(op, Box::new(a), Box::new(b))),
        },
    }
}

/// The element of a folded array at a folded index.
pub fn select_folded(array: TypedExpression, index: TypedExpression) -> (r: TypedExpression)
    ensures
        r@ == select(array@, index@),
{
    let position: Option<u64> = match &index {
        TypedExpression::Value(Value::Uint(_, k)) => Some(*k),
        _ => None,
    };
    let ghost array_view = array@;
    match position {
        Some(k) => match array {
            TypedExpression::Array(ty, mut elements) => {
                assert(array_view == ExpressionView::Array(ty, expressions_view(elements@)));
                if k < elements.len() as u64 {
                    let ghost all = elements@;
                    let element = elements.remove(k as usize);
                    assert(element == all[k as int]);
                    assert(expressions_view(all)[k as int] == element@);
                    element
                } else {
                    TypedExpression::Select(
                        Box::new(TypedExpression::Array(ty, elements)),
                        Box::new(index),
                    )
                }
            },
            other => TypedExpression::Select(Box::new(other), Box::new(index)),
        },
        None => TypedExpression::Select(Box::new(array), Box::new(index)),
    }
}

/// The folded form of `e`, given the values that variables are known to
/// hold.
pub fn fold(env: &HashMap<u128, Value>, e: &TypedExpression) -> (r: Result<TypedExpression, Error>)
    ensures
        folded_view(r) == fold_expression(env@, e@),
    decreases e,
{
    broadcast use vstd::std_specs::hash::group_hash_axioms;

    match e {
        TypedExpression::Value(v) => Ok(TypedExpression::Value(*v)),
        TypedExpression::Identifier(v) => {
            let key = v.get_key();
            match env.get(&key) {
                Some(value) => Ok(TypedExpression::Value(*value)),
                None => Ok(TypedExpression::Identifier(v.clone())),
            }
        },
        TypedExpression::Constant(id, ty) => Ok(TypedExpression::Constant(*id, ty.clone())),
        TypedExpression::Not(a) => {
            let folded = fold(env, a)?;
            match folded {
                TypedExpression::Value(Value::Boolean(x)) => Ok(
                    TypedExpression::Value(Value::Boolean(!x)),
                ),
                other => Ok(TypedExpression::Not(Box::new(other))),
            }
        },
        TypedExpression::Binary(op, a, b) => {
            let left = fold(env, a)?;
            let right = fold(env, b)?;
            combine_folded(*op, left, right)
        },
        TypedExpression::IfElse(c, a, b, isolated) => {
            let condition = fold(env, c)?;
            match condition {
                TypedExpression::Value(Value::Boolean(x)) => {
                    if x {
                        fold(env, a)
                    } else {
                        fold(env, b)
                    }
                },
                other => {
                    let consequence = fold(env, a)?;
                    let alternative = fold(env, b)?;
                    Ok(
                        TypedExpression::IfElse(
                            Box::new(other),
                            Box::new(consequence),
                            Box::new(alternative),
                            *isolated,
                        ),
                    )
                },
            }
        },
        TypedExpression::Call(f, args, ty) => {
            let folded = fold_all(env, args)?;
            Ok(TypedExpression::Call(*f, folded, ty.clone()))
        },
        TypedExpression::Array(ty, elements) => {
            let folded = fold_all(env, elements)?;
            Ok(TypedExpression::Array(ty.clone(), folded))
        },
        TypedExpression::Select(a, i) => {
            let array = fold(env, a)?;
            let index = fold(env, i)?;
            Ok(select_folded(array, index))
        },
    }
}

/// The folded forms of the expressions of `es`, or the error of the first
/// that has none.
pub fn fold_all(env: &HashMap<u128, Value>, es: &Vec<TypedExpression>) -> (r: Result<
    Vec<TypedExpression>,
    Error,
>)
    ensures
        folded_list_view(r) == fold_expressions(env@, expressions_view(es@)),
    decreases es,
{
    let ghost input = expressions_view(es@);
    let mut out: Vec<TypedExpression> = Vec::new();
    let mut i: usize = 0;
    assert(input.take(0) =~= Seq::<ExpressionView>::empty());
    assert(expressions_view(out@) =~= Seq::<ExpressionView>::empty());
    while i < es.len()
        invariant
            i <= es.len(),
            input == expressions_view(es@),
            fold_expressions(env@, input.take(i as int)) == Ok::<Seq<ExpressionView>, Error>(
                expressions_view(out@),
            ),
        decreases es.len() - i,
    {
        let ghost before = expressions_view(out@);
        let ghost next = input.take(i + 1);
        proof {
            assert(next.drop_last() =~= input.take(i as int));
            assert(next.last() == es@[i as int]@);
        }
        match fold(env, &es[i]) {
            Ok(folded) => {
                out.push(folded);
                assert(expressions_view(out@) =~= before.push(folded@));
            },
            Err(err) => {
                proof {
                    lemma_fold_expressions_prefix_error(env@, input, i + 1, err);
                }
                return Err(err);
            },
        }
        i += 1;
    }
    assert(input.take(es.len() as int) =~= input);
    Ok(out)
}

/// Where the folding of a prefix of a list fails, the folding of the list
/// fails with the same error.
pub proof fn lemma_fold_expressions_prefix_error(
    env: Constants,
    es: Seq<ExpressionView>,
    n: int,
    err: Error,
)
    requires
        0 <= n <= es.len(),
        fold_expressions(env, es.take(n)) == Err::<Seq<ExpressionView>, Error>(err),
    ensures
        fold_expressions(env, es) == Err::<Seq<ExpressionView>, Error>(err),
    decreases es.len() - n,
{
    if n < es.len() {
        assert(es.take(n + 1).drop_last() =~= es.take(n));
        lemma_fold_expressions_prefix_error(env, es, n + 1, err);
    } else {
        assert(es.take(n) =~= es);
    }
}

/// The folded form of a target: each of its indices folded.
pub open spec fn fold_assignee(env: Constants, a: AssigneeView) -> Result<AssigneeView, Error>
    decreases a,
{
    match a {
        AssigneeView::Identifier(_) => Ok(a),
        AssigneeView::Select(inner, index) => match fold_assignee(env, *inner) {
            Err(err) => Err(err),
            Ok(target) => match fold_expression(env, *index) {
                Err(err) => Err(err),
                Ok(folded) => Ok(AssigneeView::Select(Box::new(target), Box::new(folded))),
            },
        },
    }
}

/// The statement that stands for `previous` followed by `next`, where one
/// statement can: where both assign to one variable and `next` assigns a
/// literal, that is `next`; where both add a literal to that variable, it is
/// the addition of the sum of the two literals.
pub open spec fn merged(previous: StatementView, next: StatementView) -> Option<StatementView> {
    match (previous, next) {
        (
            StatementView::Definition(AssigneeView::Identifier(v), first),
            StatementView::Definition(AssigneeView::Identifier(w), second),
        ) => if v.key() != w.key() {
            None
        } else {
            match second {
                ExpressionView::Value(_) => Some(next),
                ExpressionView::Binary(BinaryOp::Add, a, b) => match (*a, *b, first) {
                    (
                        ExpressionView::Identifier(w1),
                        ExpressionView::Value(c2),
                        ExpressionView::Binary(BinaryOp::Add, x, y),
                    ) => match (*x, *y) {
                        (ExpressionView::Identifier(v1), ExpressionView::Value(c1)) => if v1.key()
                            == w.key() && w1.key() == w.key() {
                            match binary_value(BinaryOp::Add, c1, c2) {
                                Some(c) => Some(
                                    StatementView::Definition(
                                        AssigneeView::Identifier(w),
                                        ExpressionView::Binary(
                                            BinaryOp::Add,
                                            Box::new(ExpressionView::Identifier(w1)),
                                            Box::new(ExpressionView::Value(c)),
                                        ),
                                    ),
                                ),
                                None => None,
                            }
                        } else {
                            None
                        },
                        _ => None,
                    },
                    _ => None,
                },
                _ => None,
            }
        },
        _ => None,
    }
}

/// The statements `out` with `s` after them, `s` merged with the last of
/// them where it can be.
pub open spec fn emit(out: Seq<StatementView>, s: StatementView) -> Seq<StatementView> {
    if out.len() > 0 {
        match merged(out.last(), s) {
            Some(m) => out.drop_last().push(m),
            None => out.push(s),
        }
    } else {
        out.push(s)
    }
}

/// What is known and what was written after some statements.
pub struct State {
    pub constants: Constants,
    pub statements: Seq<StatementView>,
}

/// The state after one more statement. An assignment to a variable has its
/// value folded; it is left out where it assigns the variable to itself,
/// and the variable is known from then on where the value is a literal. An
/// assertion is folded, and left out where it folds to true. A loop has its
/// bounds folded, and nothing is known after it.
pub open spec fn propagate_statement(state: State, s: StatementView) -> Result<State, Error> {
    let env = state.constants;
    match s {
        StatementView::Definition(a, e) => match fold_expression(env, e) {
            Err(err) => Err(err),
            Ok(value) => match a {
                AssigneeView::Identifier(v) => {
                    if value matches ExpressionView::Identifier(w) && w.key() == v.key() {
                        Ok(state)
                    } else {
                        Ok(
                            State {
                                constants: match value {
                                    ExpressionView::Value(c) => env.insert(v.key(), c),
                                    _ => env.remove(v.key()),
                                },
                                statements: emit(
                                    state.statements,
                                    StatementView::Definition(a, value),
                                ),
                            },
                        )
                    }
                },
                AssigneeView::Select(_, _) => match fold_assignee(env, a) {
                    Err(err) => Err(err),
                    Ok(target) => Ok(
                        State {
                            constants: env.remove(base_variable(a).key()),
                            statements: state.statements.push(
                                StatementView::Definition(target, value),
                            ),
                        },
                    ),
                },
            },
        },
        StatementView::Assertion(e) => match fold_expression(env, e) {
            Err(err) => Err(err),
            Ok(ExpressionView::Value(Value::Boolean(true))) => Ok(state),
            Ok(condition) => Ok(
                State {
                    constants: env,
                    statements: state.statements.push(StatementView::Assertion(condition)),
                },
            ),
        },
        StatementView::For(v, from, to, body) => match fold_expression(env, from) {
            Err(err) => Err(err),
            Ok(lower) => match fold_expression(env, to) {
                Err(err) => Err(err),
                Ok(upper) => Ok(
                    State {
                        constants: Map::empty(),
                        statements: state.statements.push(
                            StatementView::For(v, lower, upper, body),
                        ),
                    },
                ),
            },
        },
    }
}

/// The state after the statements of `ss`, one after the other, or the
/// error of the first that fails.
pub open spec fn propagate_statements(state: State, ss: Seq<StatementView>) -> Result<State, Error>
    decreases ss.len(),
{
    if ss.len() == 0 {
        Ok(state)
    } else {
        match propagate_statements(state, ss.drop_last()) {
            Err(err) => Err(err),
            Ok(middle) => propagate_statement(middle, ss.last()),
        }
    }
}

/// The propagated form of a function: its statements propagated from a
/// state in which nothing is known, and the values that it returns folded
/// with what is known at its end.
pub open spec fn propagate_function(f: FunctionView) -> Result<FunctionView, Error> {
    match propagate_statements(
        State { constants: Map::empty(), statements: Seq::empty() },
        f.statements,
    ) {
        Err(err) => Err(err),
        Ok(state) => match fold_expressions(state.constants, f.returns) {
            Err(err) => Err(err),
            Ok(results) => Ok(
                FunctionView {
                    arguments: f.arguments,
                    statements: state.statements,
                    returns: results,
                },
            ),
        },
    }
}

/// The propagated forms of the functions of `fs`, or the error of the first
/// that fails.
pub open spec fn propagate_functions(fs: Seq<FunctionView>) -> Result<Seq<FunctionView>, Error>
    decreases fs.len(),
{
    if fs.len() == 0 {
        Ok(Seq::empty())
    } else {
        match propagate_functions(fs.drop_last()) {
            Err(err) => Err(err),
            Ok(done) => match propagate_function(fs.last()) {
                Err(err) => Err(err),
                Ok(f) => Ok(done.push(f)),
            },
        }
    }
}

/// The propagated form of a program: each of its functions propagated.
pub open spec fn propagate_program(p: ProgramView) -> Result<ProgramView, Error> {
    match propagate_functions(p.functions) {
        Err(err) => Err(err),
        Ok(functions) => Ok(
            ProgramView { functions: functions, main: p.main, constants: p.constants },
        ),
    }
}

/// The folded form of a target.
pub fn fold_target(env: &HashMap<u128, Value>, a: &TypedAssignee) -> (r: Result<
    TypedAssignee,
    Error,
>)
    ensures
        match r {
            Ok(target) => fold_assignee(env@, a@) == Ok::<AssigneeView, Error>(target@),
            Err(err) => fold_assignee(env@, a@) == Err::<AssigneeView, Error>(err),
        },
    decreases a,
{
    match a {
        TypedAssignee::Identifier(v) => Ok(TypedAssignee::Identifier(v.clone())),
        TypedAssignee::Select(inner, index) => {
            let target = fold_target(env, inner)?;
            let folded = fold(env, index)?;
            Ok(TypedAssignee::Select(Box::new(target), Box::new(folded)))
        },
    }
}

/// The addition that stands for two additions of literals to `w`, if the
/// two expressions are such additions.
fn accumulate(w: &Variable, a: &TypedExpression, b: &TypedExpression, first: &TypedExpression) -> (r:
    Option<TypedStatement>)
    ensures
        match r {
            Some(m) => merged(
                StatementView::Definition(AssigneeView::Identifier(*w), first@),
                StatementView::Definition(
                    AssigneeView::Identifier(*w),
                    ExpressionView::Binary(BinaryOp::Add, Box::new(a@), Box::new(b@)),
                ),
            ) == Some(m@),
            None => merged(
                StatementView::Definition(AssigneeView::Identifier(*w), first@),
                StatementView::Definition(
                    AssigneeView::Identifier(*w),
                    ExpressionView::Binary(BinaryOp::Add, Box::new(a@), Box::new(b@)),
                ),
            ).is_none(),
        },
{
    match (a, b, first) {
        (
            TypedExpression::Identifier(w1),
            TypedExpression::Value(c2),
            TypedExpression::Binary(BinaryOp::Add, x, y),
        ) => match (&**x, &**y) {
            (TypedExpression::Identifier(v1), TypedExpression::Value(c1)) => {
                assert(x@ == ExpressionView::Identifier(*v1));
                assert(y@ == ExpressionView::Value(*c1));
                assert(a@ == ExpressionView::Identifier(*w1));
                assert(b@ == ExpressionView::Value(*c2));
                assert(first@ == ExpressionView::Binary(BinaryOp::Add, Box::new(x@), Box::new(y@)));
                if v1.same_as(w) && w1.same_as(w) {
                    match apply_binary(BinaryOp::Add, c1, c2) {
                        Some(c) => {
                            let left = TypedExpression::Identifier(w1.clone());
                            let right = TypedExpression::Value(c);
                            assert(left@ == ExpressionView::Identifier(*w1));
                            assert(right@ == ExpressionView::Value(c));
                            let sum = TypedExpression::Binary(
                                BinaryOp::Add,
                                Box::new(left),
                                Box::new(right),
                            );
                            assert(sum@ == ExpressionView::Binary(
                                BinaryOp::Add,
                                Box::new(ExpressionView::Identifier(*w1)),
                                Box::new(ExpressionView::Value(c)),
                            ));
                            let target = TypedAssignee::Identifier(w.clone());
                            assert(target@ == AssigneeView::Identifier(*w));
                            let m = TypedStatement::Definition(target, sum);
                            assert(m@ == StatementView::Definition(target@, sum@));
                            Some(m)
                        },
                        None => None,
                    }
                } else {
                    None
                }
            },
            _ => None,
        },
        _ => None,
    }
}

/// The statement that stands for `previous` followed by `next`, where one
/// statement can; `next` handed back where none can.
fn merge(previous: &TypedStatement, next: TypedStatement) -> (r: Result<
    TypedStatement,
    TypedStatement,
>)
    ensures
        match r {
            Ok(m) => merged(previous@, next@) == Some(m@),
            Err(s) => merged(previous@, next@).is_none() && s@ == next@,
        },
{
    let replacement: Option<Option<TypedStatement>> = match (previous, &next) {
        (
            TypedStatement::Definition(TypedAssignee::Identifier(v), first),
            TypedStatement::Definition(TypedAssignee::Identifier(w), second),
        ) => {
            if !v.same_as(w) {
                None
            } else {
                match second {
                    TypedExpression::Value(_) => Some(None),
                    TypedExpression::Binary(BinaryOp::Add, a, b) => {
                        proof {
                            lemma_merged_ignores_types(previous@, next@, *w);
                        }
                        match accumulate(w, a, b, first) {
                            Some(m) => Some(Some(m)),
                            None => None,
                        }
                    },
                    _ => None,
                }
            }
        },
        _ => None,
    };
    match replacement {
        None => Err(next),
        Some(None) => Ok(next),
        Some(Some(m)) => Ok(m),
    }
}

/// Whether two additions merge does not depend on which of two variables of
/// one key the first assigns to.
proof fn lemma_merged_ignores_types(previous: StatementView, next: StatementView, w: Variable)
    requires
        previous matches StatementView::Definition(AssigneeView::Identifier(v), _) && v.key()
            == w.key(),
        next matches StatementView::Definition(AssigneeView::Identifier(u), _) && u == w,
    ensures
        merged(previous, next) == merged(
            StatementView::Definition(
                AssigneeView::Identifier(w),
                previous->Definition_1,
            ),
            next,
        ),
{
}

/// Puts `s` after the statements of `out`, merged with the last of them
/// where it can be.
pub fn emit_statement(out: &mut Vec<TypedStatement>, s: TypedStatement)
    ensures
        statements_view(final(out)@) == emit(statements_view(old(out)@), s@),
{
    let ghost before = statements_view(out@);
    let n = out.len();
    if n > 0 {
        match merge(&out[n - 1], s) {
            Ok(m) => {
                out.pop();
                out.push(m);
                assert(statements_view(out@) =~= before.drop_last().push(m@));
            },
            Err(s) => {
                out.push(s);
                assert(statements_view(out@) =~= before.push(s@));
            },
        }
    } else {
        out.push(s);
        assert(statements_view(out@) =~= before.push(s@));
    }
}

/// The propagation of known values through the statements of a function.
#[derive(Debug)]
pub struct Propagator {
    constants: HashMap<u128, Value>,
    statements: Vec<TypedStatement>,
}

/// What a propagation returned, over views.
pub open spec fn propagated_view(r: Result<TypedProgram, Error>) -> Result<ProgramView, Error> {
    match r {
        Ok(p) => Ok(p@),
        Err(err) => Err(err),
    }
}

impl Propagator {
    /// What is known and what was written so far.
    pub closed spec fn state(&self) -> State {
        State { constants: self.constants@, statements: statements_view(self.statements@) }
    }

    /// A propagator that knows nothing and has written nothing.
    pub fn new() -> (r: Propagator)
        ensures
            r.state() == (State { constants: Map::empty(), statements: Seq::empty() }),
    {
        let r = Propagator { constants: HashMap::new(), statements: Vec::new() };
        assert(statements_view(r.statements@) =~= Seq::<StatementView>::empty());
        r
    }

    /// Takes one more statement.
    pub fn propagate_statement(&mut self, s: &TypedStatement) -> (r: Result<(), Error>)
        ensures
            match r {
                Ok(_) => propagate_statement(old(self).state(), s@) == Ok::<State, Error>(
                    final(self).state(),
                ),
                Err(err) => propagate_statement(old(self).state(), s@) == Err::<State, Error>(err),
            },
    {
        broadcast use vstd::std_specs::hash::group_hash_axioms;

        let ghost before = statements_view(self.statements@);
        match s {
            TypedStatement::Definition(a, e) => {
                let value = fold(&self.constants, e)?;
                match a {
                    TypedAssignee::Identifier(v) => {
                        let same = match &value {
                            TypedExpression::Identifier(w) => w.same_as(v),
                            _ => false,
                        };
                        if same {
                            return Ok(());
                        }
                        let key = v.get_key();
                        match literal(&value) {
                            Some(c) => {
                                self.constants.insert(key, c);
                            },
                            None => {
                                self.constants.remove(&key);
                            },
                        }
                        emit_statement(
                            &mut self.statements,
                            TypedStatement::Definition(TypedAssignee::Identifier(v.clone()), value),
                        );
                        Ok(())
                    },
                    TypedAssignee::Select(_, _) => {
                        let target = fold_target(&self.constants, a)?;
                        let key = a.variable().get_key();
                        self.constants.remove(&key);
                        self.statements.push(TypedStatement::Definition(target, value));
                        assert(statements_view(self.statements@) =~= before.push(
                            StatementView::Definition(target@, value@),
                        ));
                        Ok(())
                    },
                }
            },
            TypedStatement::Assertion(e) => {
                let condition = fold(&self.constants, e)?;
                let holds = match &condition {
                    TypedExpression::Value(Value::Boolean(x)) => *x,
                    _ => false,
                };
                if holds {
                    return Ok(());
                }
                self.statements.push(TypedStatement::Assertion(condition));
                assert(statements_view(self.statements@) =~= before.push(
                    StatementView::Assertion(condition@),
                ));
                Ok(())
            },
            TypedStatement::For(v, from, to, body) => {
                let lower = fold(&self.constants, from)?;
                let upper = fold(&self.constants, to)?;
                self.constants.clear();
                let s2 = TypedStatement::For(v.clone(), lower, upper, clone_statements(body));
                self.statements.push(s2);
                assert(statements_view(self.statements@) =~= before.push(s2@));
                Ok(())
            },
        }
    }

    /// The propagated form of a function.
    pub fn propagate_function(f: &TypedFunction) -> (r: Result<TypedFunction, Error>)
        ensures
            match r {
                Ok(g) => propagate_function(f@) == Ok::<FunctionView, Error>(g@),
                Err(err) => propagate_function(f@) == Err::<FunctionView, Error>(err),
            },
    {
        let ghost input = statements_view(f.statements@);
        let ghost start = State { constants: Map::empty(), statements: Seq::empty() };
        let mut propagator = Propagator::new();
        let mut i: usize = 0;
        assert(input.take(0) =~= Seq::<StatementView>::empty());
        while i < f.statements.len()
            invariant
                i <= f.statements.len(),
                input == statements_view(f.statements@),
                start == (State { constants: Map::empty(), statements: Seq::empty() }),
                propagate_statements(start, input.take(i as int)) == Ok::<State, Error>(
                    propagator.state(),
                ),
            decreases f.statements.len() - i,
        {
            proof {
                assert(input.take(i + 1).drop_last() =~= input.take(i as int));
                assert(input.take(i + 1).last() == f.statements@[i as int]@);
            }
            match propagator.propagate_statement(&f.statements[i]) {
                Ok(_) => {},
                Err(err) => {
                    proof {
                        lemma_propagate_statements_prefix_error(start, input, i + 1, err);
                    }
                    return Err(err);
                },
            }
            i += 1;
        }
        assert(input.take(f.statements.len() as int) =~= input);
        let results = fold_all(&propagator.constants, &f.returns)?;
        Ok(
            TypedFunction {
                arguments: clone_parameters(&f.arguments),
                statements: propagator.statements,
                returns: results,
            },
        )
    }

    /// The propagated form of a program.
    pub fn propagate(p: TypedProgram) -> (r: Result<TypedProgram, Error>)
        ensures
            propagated_view(r) == propagate_program(p@),
    {
        let ghost input = functions_view(p.functions@);
        let mut functions: Vec<TypedFunction> = Vec::new();
        let mut i: usize = 0;
        assert(input.take(0) =~= Seq::<FunctionView>::empty());
        assert(functions_view(functions@) =~= Seq::<FunctionView>::empty());
        while i < p.functions.len()
            invariant
                i <= p.functions.len(),
                input == functions_view(p.functions@),
                propagate_functions(input.take(i as int)) == Ok::<Seq<FunctionView>, Error>(
                    functions_view(functions@),
                ),
            decreases p.functions.len() - i,
        {
            let ghost before = functions_view(functions@);
            proof {
                assert(input.take(i + 1).drop_last() =~= input.take(i as int));
                assert(input.take(i + 1).last() == p.functions@[i as int]@);
            }
            match Propagator::propagate_function(&p.functions[i]) {
                Ok(g) => {
                    functions.push(g);
                    assert(functions_view(functions@) =~= before.push(g@));
                },
                Err(err) => {
                    proof {
                        lemma_propagate_functions_prefix_error(input, i + 1, err);
                    }
                    return Err(err);
                },
            }
            i += 1;
        }
        assert(input.take(p.functions.len() as int) =~= input);
        Ok(TypedProgram { functions, main: p.main, constants: p.constants })
    }
}

/// Where the propagation of a prefix of a list of statements fails, the
/// propagation of the list fails with the same error.
pub proof fn lemma_propagate_statements_prefix_error(
    state: State,
    ss: Seq<StatementView>,
    n: int,
    err: Error,
)
    requires
        0 <= n <= ss.len(),
        propagate_statements(state, ss.take(n)) == Err::<State, Error>(err),
    ensures
        propagate_statements(state, ss) == Err::<State, Error>(err),
    decreases ss.len() - n,
{
    if n < ss.len() {
        assert(ss.take(n + 1).drop_last() =~= ss.take(n));
        lemma_propagate_statements_prefix_error(state, ss, n + 1, err);
    } else {
        assert(ss.take(n) =~= ss);
    }
}

/// Where the propagation of a prefix of a list of functions fails, the
/// propagation of the list fails with the same error.
pub proof fn lemma_propagate_functions_prefix_error(fs: Seq<FunctionView>, n: int, err: Error)
    requires
        0 <= n <= fs.len(),
        propagate_functions(fs.take(n)) == Err::<Seq<FunctionView>, Error>(err),
    ensures
        propagate_functions(fs) == Err::<Seq<FunctionView>, Error>(err),
    decreases fs.len() - n,
{
    if n < fs.len() {
        assert(fs.take(n + 1).drop_last() =~= fs.take(n));
        lemma_propagate_functions_prefix_error(fs, n + 1, err);
    } else {
        assert(fs.take(n) =~= fs);
    }
}

} // verus!
