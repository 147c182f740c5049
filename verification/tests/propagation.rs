use std::collections::HashMap;
use zokrates_core::field::FieldElement;
use zokrates_core::static_analysis::propagation::{fold, Error, Propagator};
use zokrates_core::typed_absy::operators::{apply_binary, BinaryOp};
use zokrates_core::typed_absy::types::{Type, Value, Variable};
use zokrates_core::typed_absy::{
    Parameter, TypedAssignee, TypedExpression, TypedFunction, TypedProgram, TypedStatement,
};

fn uint(bits: u8, v: u64) -> TypedExpression {
    TypedExpression::Value(Value::Uint(bits, v))
}

fn boolean(b: bool) -> TypedExpression {
    TypedExpression::Value(Value::Boolean(b))
}

fn field(v: u64) -> TypedExpression {
    TypedExpression::Value(Value::Field(FieldElement::from_u64(v)))
}

fn name(v: &Variable) -> TypedExpression {
    TypedExpression::Identifier(v.clone())
}

fn binary(op: BinaryOp, a: TypedExpression, b: TypedExpression) -> TypedExpression {
    TypedExpression::Binary(op, Box::new(a), Box::new(b))
}

fn if_else(c: TypedExpression, a: TypedExpression, b: TypedExpression) -> TypedExpression {
    TypedExpression::IfElse(Box::new(c), Box::new(a), Box::new(b), false)
}

fn assign(v: &Variable, e: TypedExpression) -> TypedStatement {
    TypedStatement::Definition(TypedAssignee::Identifier(v.clone()), e)
}

fn folded(e: TypedExpression) -> Result<TypedExpression, Error> {
    fold(&HashMap::new(), &e)
}

fn folds_to(op: BinaryOp, bits: u8, a: u64, b: u64, expected: u64) {
    assert_eq!(
        folded(binary(op, uint(bits, a), uint(bits, b))),
        Ok(uint(bits, expected)),
        "{:?} on {} and {} at {} bits",
        op,
        a,
        b,
        bits
    );
}

fn function(statements: Vec<TypedStatement>, returns: Vec<TypedExpression>) -> TypedFunction {
    TypedFunction {
        arguments: vec![],
        statements,
        returns,
    }
}

#[test]
fn folding_wraps_at_one_bit() {
    folds_to(BinaryOp::Add, 1, 1, 1, 0);
    folds_to(BinaryOp::Add, 1, 0, 1, 1);
    folds_to(BinaryOp::Sub, 1, 0, 1, 1);
    folds_to(BinaryOp::Mul, 1, 1, 1, 1);
}

#[test]
fn folding_wraps_at_eight_bits() {
    folds_to(BinaryOp::Add, 8, 200, 100, 44);
    folds_to(BinaryOp::Sub, 8, 5, 10, 251);
    folds_to(BinaryOp::Mul, 8, 16, 16, 0);
    folds_to(BinaryOp::Mul, 8, 15, 20, 44);
    folds_to(BinaryOp::Div, 8, 200, 3, 66);
    folds_to(BinaryOp::Rem, 8, 200, 3, 2);
    folds_to(BinaryOp::LeftShift, 8, 0x81, 1, 2);
    folds_to(BinaryOp::RightShift, 8, 0x81, 1, 0x40);
    folds_to(BinaryOp::LeftShift, 8, 1, 8, 0);
    folds_to(BinaryOp::LeftShift, 8, 1, 200, 0);
    folds_to(BinaryOp::RightShift, 8, 255, 64, 0);
}

#[test]
fn folding_wraps_at_thirty_two_bits() {
    folds_to(BinaryOp::Add, 32, 0xffff_ffff, 1, 0);
    folds_to(BinaryOp::Mul, 32, 0x10000, 0x10000, 0);
    folds_to(BinaryOp::Sub, 32, 0, 1, 0xffff_ffff);
    folds_to(BinaryOp::Add, 32, 2, 3, 5);
}

#[test]
fn folding_wraps_at_sixty_four_bits() {
    folds_to(BinaryOp::Add, 64, u64::MAX, 1, 0);
    folds_to(BinaryOp::Mul, 64, u64::MAX, 2, u64::MAX - 1);
    folds_to(BinaryOp::Mul, 64, u64::MAX, u64::MAX, 1);
    folds_to(BinaryOp::Sub, 64, 0, 1, u64::MAX);
    folds_to(BinaryOp::LeftShift, 64, 1, 63, 1 << 63);
    folds_to(BinaryOp::LeftShift, 64, 3, 63, 1 << 63);
}

#[test]
fn folding_a_nested_expression_gives_its_value() {
    // ((200 + 100) * 2 - 90) / 3 at eight bits: 44 * 2 = 88, 88 - 90 = 254, 254 / 3 = 84
    let e = binary(
        BinaryOp::Div,
        binary(
            BinaryOp::Sub,
            binary(
                BinaryOp::Mul,
                binary(BinaryOp::Add, uint(8, 200), uint(8, 100)),
                uint(8, 2),
            ),
            uint(8, 90),
        ),
        uint(8, 3),
    );
    assert_eq!(folded(e), Ok(uint(8, 84)));
}

#[test]
fn folding_comparisons_and_booleans() {
    assert_eq!(folded(binary(BinaryOp::Eq, uint(8, 3), uint(8, 3))), Ok(boolean(true)));
    assert_eq!(folded(binary(BinaryOp::Lt, uint(8, 3), uint(8, 3))), Ok(boolean(false)));
    assert_eq!(folded(binary(BinaryOp::Lt, uint(8, 2), uint(8, 3))), Ok(boolean(true)));
    assert_eq!(folded(binary(BinaryOp::And, boolean(true), boolean(false))), Ok(boolean(false)));
    assert_eq!(folded(binary(BinaryOp::Or, boolean(true), boolean(false))), Ok(boolean(true)));
    assert_eq!(folded(binary(BinaryOp::Eq, boolean(false), boolean(false))), Ok(boolean(true)));
    assert_eq!(
        folded(TypedExpression::Not(Box::new(binary(BinaryOp::Lt, uint(8, 2), uint(8, 3))))),
        Ok(boolean(false))
    );
}

#[test]
fn folding_field_arithmetic() {
    assert_eq!(folded(binary(BinaryOp::Add, field(3), field(4))), Ok(field(7)));
    assert_eq!(folded(binary(BinaryOp::Mul, field(3), field(4))), Ok(field(12)));
    assert_eq!(folded(binary(BinaryOp::Sub, field(7), field(4))), Ok(field(3)));
    assert_eq!(folded(binary(BinaryOp::Div, field(12), field(4))), Ok(field(3)));
    assert_eq!(folded(binary(BinaryOp::Eq, field(12), field(4))), Ok(boolean(false)));
    assert_eq!(folded(binary(BinaryOp::Lt, field(4), field(12))), Ok(boolean(true)));
    // 3 - 4 + 4 = 3 in the field
    assert_eq!(
        folded(binary(BinaryOp::Add, binary(BinaryOp::Sub, field(3), field(4)), field(4))),
        Ok(field(3))
    );
}

#[test]
fn division_by_a_literal_zero_is_an_error() {
    let x = Variable::new(0, Type::Uint(8));
    assert_eq!(folded(binary(BinaryOp::Div, uint(8, 1), uint(8, 0))), Err(Error::DivisionByZero));
    assert_eq!(folded(binary(BinaryOp::Rem, uint(8, 1), uint(8, 0))), Err(Error::DivisionByZero));
    assert_eq!(folded(binary(BinaryOp::Div, field(1), field(0))), Err(Error::DivisionByZero));
    assert_eq!(folded(binary(BinaryOp::Div, name(&x), uint(8, 0))), Err(Error::DivisionByZero));
    assert_eq!(
        folded(binary(
            BinaryOp::Div,
            name(&x),
            binary(BinaryOp::Sub, uint(8, 2), uint(8, 2))
        )),
        Err(Error::DivisionByZero)
    );
    // a zero that is divided is no error
    assert_eq!(folded(binary(BinaryOp::Div, uint(8, 0), uint(8, 2))), Ok(uint(8, 0)));
    assert_eq!(Error::DivisionByZero.message(), "division by zero");
}

#[test]
fn operands_of_different_types_are_not_folded() {
    let e = binary(BinaryOp::Add, uint(8, 1), uint(16, 1));
    assert_eq!(folded(e.clone()), Ok(e));
    let e = binary(BinaryOp::Add, field(1), uint(16, 1));
    assert_eq!(folded(e.clone()), Ok(e));
    assert_eq!(apply_binary(BinaryOp::And, &Value::Uint(8, 1), &Value::Uint(8, 1)), None);
}

#[test]
fn a_known_condition_picks_its_branch() {
    let x = Variable::new(0, Type::Uint(8));
    assert_eq!(folded(if_else(boolean(true), name(&x), uint(8, 2))), Ok(name(&x)));
    assert_eq!(folded(if_else(boolean(false), name(&x), uint(8, 2))), Ok(uint(8, 2)));
    // the branch that is not taken is not looked at
    let dead = binary(BinaryOp::Div, uint(8, 1), uint(8, 0));
    assert_eq!(
        folded(if_else(binary(BinaryOp::Lt, uint(8, 1), uint(8, 2)), uint(8, 7), dead)),
        Ok(uint(8, 7))
    );
    // an unknown condition stays, with folded branches
    let c = binary(BinaryOp::Lt, name(&x), uint(8, 2));
    assert_eq!(
        folded(if_else(c.clone(), binary(BinaryOp::Add, uint(8, 1), uint(8, 1)), uint(8, 0))),
        Ok(if_else(c, uint(8, 2), uint(8, 0)))
    );
}

#[test]
fn neutral_operands_disappear() {
    let x = Variable::new(0, Type::Uint(8));
    assert_eq!(folded(binary(BinaryOp::Add, name(&x), uint(8, 0))), Ok(name(&x)));
    assert_eq!(folded(binary(BinaryOp::Add, uint(8, 0), name(&x))), Ok(name(&x)));
    assert_eq!(folded(binary(BinaryOp::Sub, name(&x), uint(8, 0))), Ok(name(&x)));
    assert_eq!(folded(binary(BinaryOp::Mul, name(&x), uint(8, 1))), Ok(name(&x)));
    assert_eq!(folded(binary(BinaryOp::Mul, uint(8, 1), name(&x))), Ok(name(&x)));
    let e = binary(BinaryOp::Sub, uint(8, 0), name(&x));
    assert_eq!(folded(e.clone()), Ok(e));
}

#[test]
fn a_free_variable_is_not_folded() {
    let x = Variable::new(0, Type::FieldElement);
    let e = binary(BinaryOp::Eq, binary(BinaryOp::Mul, name(&x), name(&x)), name(&x));
    assert_eq!(folded(e.clone()), Ok(e.clone()));
    let f = function(vec![TypedStatement::Assertion(e.clone())], vec![]);
    assert_eq!(Propagator::propagate_function(&f), Ok(f));
}

#[test]
fn known_variables_are_replaced() {
    let x = Variable::new(0, Type::Uint(8));
    let mut env = HashMap::new();
    env.insert(x.get_key(), Value::Uint(8, 250));
    assert_eq!(fold(&env, &binary(BinaryOp::Add, name(&x), uint(8, 10))), Ok(uint(8, 4)));
    let other = Variable { id: 0, version: 1, ty: Type::Uint(8) };
    let e = binary(BinaryOp::Add, name(&other), uint(8, 10));
    assert_eq!(fold(&env, &e), Ok(e));
}

#[test]
fn selection_from_a_written_array() {
    let array = TypedExpression::Array(Type::Uint(8), vec![uint(8, 10), uint(8, 20), uint(8, 30)]);
    let select = |i: TypedExpression| TypedExpression::Select(Box::new(array.clone()), Box::new(i));
    assert_eq!(folded(select(uint(32, 1))), Ok(uint(8, 20)));
    assert_eq!(folded(select(binary(BinaryOp::Add, uint(32, 1), uint(32, 1)))), Ok(uint(8, 30)));
    assert_eq!(folded(select(uint(32, 3))), Ok(select(uint(32, 3))));
}

#[test]
fn literals_propagate_through_statements() {
    let y = Variable::new(0, Type::Uint(32));
    let z = Variable::new(1, Type::Uint(32));
    let f = function(
        vec![
            assign(&y, uint(32, 5)),
            assign(&z, binary(BinaryOp::Add, name(&y), uint(32, 1))),
            TypedStatement::Assertion(binary(BinaryOp::Lt, name(&y), name(&z))),
        ],
        vec![binary(BinaryOp::Mul, name(&z), name(&y))],
    );
    let expected = function(
        vec![assign(&y, uint(32, 5)), assign(&z, uint(32, 6))],
        vec![uint(32, 30)],
    );
    assert_eq!(Propagator::propagate_function(&f), Ok(expected));
}

#[test]
fn an_assignment_of_an_unknown_value_forgets_the_variable() {
    let x = Variable::new(0, Type::Uint(32));
    let y = Variable::new(1, Type::Uint(32));
    let f = function(
        vec![
            assign(&y, uint(32, 5)),
            assign(&y, binary(BinaryOp::Mul, name(&x), name(&y))),
            TypedStatement::Assertion(binary(BinaryOp::Lt, name(&y), uint(32, 9))),
        ],
        vec![name(&y)],
    );
    let expected = function(
        vec![
            assign(&y, uint(32, 5)),
            assign(&y, binary(BinaryOp::Mul, name(&x), uint(32, 5))),
            TypedStatement::Assertion(binary(BinaryOp::Lt, name(&y), uint(32, 9))),
        ],
        vec![name(&y)],
    );
    assert_eq!(Propagator::propagate_function(&f), Ok(expected));
}

#[test]
fn additions_of_literals_accumulate() {
    // y = y + 0; y = y + 1; y = y + 2 becomes y = y + 3
    let y = Variable::new(0, Type::Uint(32));
    let step = |k: u64| assign(&y, binary(BinaryOp::Add, name(&y), uint(32, k)));
    let f = function(vec![step(0), step(1), step(2)], vec![name(&y)]);
    let expected = function(vec![step(3)], vec![name(&y)]);
    assert_eq!(Propagator::propagate_function(&f), Ok(expected));
}

#[test]
fn additions_to_a_literal_fold_to_one_assignment() {
    // y = 5; y = y + 0; y = y + 1; y = y + 2 becomes y = 8
    let y = Variable::new(0, Type::Uint(32));
    let step = |k: u64| assign(&y, binary(BinaryOp::Add, name(&y), uint(32, k)));
    let f = function(
        vec![assign(&y, uint(32, 5)), step(0), step(1), step(2)],
        vec![name(&y)],
    );
    let expected = function(vec![assign(&y, uint(32, 8))], vec![uint(32, 8)]);
    assert_eq!(Propagator::propagate_function(&f), Ok(expected));
}

#[test]
fn additions_do_not_accumulate_across_other_statements() {
    let y = Variable::new(0, Type::Uint(32));
    let z = Variable::new(1, Type::Uint(32));
    let step = |k: u64| assign(&y, binary(BinaryOp::Add, name(&y), uint(32, k)));
    let f = function(vec![step(1), assign(&z, name(&y)), step(2)], vec![]);
    assert_eq!(Propagator::propagate_function(&f), Ok(f.clone()));
}

#[test]
fn a_loop_forgets_what_is_known() {
    let y = Variable::new(0, Type::Uint(32));
    let i = Variable::new(1, Type::Uint(32));
    let body = vec![assign(&y, binary(BinaryOp::Add, name(&y), name(&i)))];
    let f = function(
        vec![
            assign(&y, uint(32, 5)),
            TypedStatement::For(
                i.clone(),
                uint(32, 0),
                binary(BinaryOp::Add, name(&y), uint(32, 1)),
                body.clone(),
            ),
        ],
        vec![name(&y)],
    );
    let expected = function(
        vec![
            assign(&y, uint(32, 5)),
            TypedStatement::For(i.clone(), uint(32, 0), uint(32, 6), body),
        ],
        vec![name(&y)],
    );
    assert_eq!(Propagator::propagate_function(&f), Ok(expected));
}

#[test]
fn an_assignment_to_an_element_forgets_the_array() {
    let a = Variable::new(0, Type::Array(Box::new(Type::Uint(8)), 2));
    let i = Variable::new(1, Type::Uint(32));
    let element = |index: TypedExpression| {
        TypedAssignee::Select(Box::new(TypedAssignee::Identifier(a.clone())), Box::new(index))
    };
    let f = function(
        vec![
            assign(&i, uint(32, 1)),
            TypedStatement::Definition(
                element(name(&i)),
                binary(BinaryOp::Add, uint(8, 1), uint(8, 2)),
            ),
        ],
        vec![],
    );
    let expected = function(
        vec![
            assign(&i, uint(32, 1)),
            TypedStatement::Definition(element(uint(32, 1)), uint(8, 3)),
        ],
        vec![],
    );
    assert_eq!(Propagator::propagate_function(&f), Ok(expected));
}

#[test]
fn propagation_of_a_program() {
    let x = Variable::new(0, Type::Uint(8));
    let good = TypedFunction {
        arguments: vec![Parameter::private(x.clone())],
        statements: vec![],
        returns: vec![binary(BinaryOp::Add, uint(8, 255), uint(8, 2))],
    };
    let bad = TypedFunction {
        arguments: vec![],
        statements: vec![TypedStatement::Assertion(binary(
            BinaryOp::Eq,
            binary(BinaryOp::Rem, name(&x), uint(8, 0)),
            uint(8, 0),
        ))],
        returns: vec![],
    };
    let p = TypedProgram {
        functions: vec![good.clone()],
        main: 0,
        constants: vec![],
    };
    let expected = TypedProgram {
        functions: vec![TypedFunction {
            arguments: vec![Parameter::private(x.clone())],
            statements: vec![],
            returns: vec![uint(8, 1)],
        }],
        main: 0,
        constants: vec![],
    };
    assert_eq!(Propagator::propagate(p), Ok(expected));
    let p = TypedProgram {
        functions: vec![good, bad],
        main: 0,
        constants: vec![],
    };
    assert_eq!(Propagator::propagate(p), Err(Error::DivisionByZero));
}
