use zokrates_core::field::FieldElement;
use zokrates_core::static_analysis::branch_isolator::Isolator;
use zokrates_core::static_analysis::constant_argument_checker::{
    ConstantArgumentChecker, Error as ArgumentError,
};
use zokrates_core::static_analysis::constant_inliner::{ConstantInliner, Error as InlinerError};
use zokrates_core::static_analysis::flatten_complex_types::Flattener;
use zokrates_core::static_analysis::propagation::Error as PropagationError;
use zokrates_core::static_analysis::uint_optimizer::UintOptimizer;
use zokrates_core::static_analysis::variable_write_remover::VariableWriteRemover;
use zokrates_core::static_analysis::zir_propagation::{Error as ZirError, ZirPropagator};
use zokrates_core::typed_absy::abi::{get_type, Abi, AbiInput};
use zokrates_core::typed_absy::operators::BinaryOp;
use zokrates_core::typed_absy::types::{Type, Value, Variable};
use zokrates_core::typed_absy::{
    Parameter, TypedAssignee, TypedExpression, TypedFunction, TypedProgram, TypedStatement,
};
use zokrates_core::zir::{
    ZirExpression, ZirParameter, ZirProgram, ZirStatement, ZirType, ZirVariable,
};

fn uint(bits: u8, v: u64) -> TypedExpression {
    TypedExpression::Value(Value::Uint(bits, v))
}

fn index(v: u64) -> TypedExpression {
    uint(32, v)
}

fn name(v: &Variable) -> TypedExpression {
    TypedExpression::Identifier(v.clone())
}

fn binary(op: BinaryOp, a: TypedExpression, b: TypedExpression) -> TypedExpression {
    TypedExpression::Binary(op, Box::new(a), Box::new(b))
}

fn select(a: TypedExpression, i: TypedExpression) -> TypedExpression {
    TypedExpression::Select(Box::new(a), Box::new(i))
}

fn if_else(c: TypedExpression, a: TypedExpression, b: TypedExpression) -> TypedExpression {
    TypedExpression::IfElse(Box::new(c), Box::new(a), Box::new(b), false)
}

fn assign(v: &Variable, e: TypedExpression) -> TypedStatement {
    TypedStatement::Definition(TypedAssignee::Identifier(v.clone()), e)
}

fn array_of(element: Type, size: u32) -> Type {
    Type::Array(Box::new(element), size)
}

fn program(statements: Vec<TypedStatement>, returns: Vec<TypedExpression>) -> TypedProgram {
    TypedProgram {
        functions: vec![TypedFunction { arguments: vec![], statements, returns }],
        main: 0,
        constants: vec![],
    }
}

fn zvalue(bits: u8, v: u64) -> ZirExpression {
    ZirExpression::Value(Value::Uint(bits, v))
}

fn zindex(v: u64) -> ZirExpression {
    zvalue(32, v)
}

fn leaf(id: usize, position: u32, ty: ZirType) -> ZirVariable {
    ZirVariable { id, version: 0, leaf: position, ty }
}

fn zname(id: usize, position: u32, ty: ZirType) -> ZirExpression {
    ZirExpression::Identifier(leaf(id, position, ty))
}

fn zbinary(op: BinaryOp, a: ZirExpression, b: ZirExpression) -> ZirExpression {
    ZirExpression::Binary(op, Box::new(a), Box::new(b))
}

fn zif(c: ZirExpression, a: ZirExpression, b: ZirExpression) -> ZirExpression {
    ZirExpression::IfElse(Box::new(c), Box::new(a), Box::new(b))
}

fn reduce(bits: u8, e: ZirExpression) -> ZirExpression {
    ZirExpression::Reduce(bits, Box::new(e))
}

#[test]
fn constants_are_replaced_by_their_values() {
    // const A = 3; const B = A + 1; main returns B * x
    let x = Variable::new(0, Type::Uint(8));
    let constant = |id: usize| TypedExpression::Constant(id, Type::Uint(8));
    let p = TypedProgram {
        functions: vec![TypedFunction {
            arguments: vec![Parameter::public(x.clone())],
            statements: vec![TypedStatement::Assertion(binary(
                BinaryOp::Lt,
                constant(0),
                name(&x),
            ))],
            returns: vec![binary(BinaryOp::Mul, constant(1), name(&x))],
        }],
        main: 0,
        constants: vec![uint(8, 3), binary(BinaryOp::Add, constant(0), uint(8, 1))],
    };
    let expected = TypedProgram {
        functions: vec![TypedFunction {
            arguments: vec![Parameter::public(x.clone())],
            statements: vec![TypedStatement::Assertion(binary(
                BinaryOp::Lt,
                uint(8, 3),
                name(&x),
            ))],
            returns: vec![binary(BinaryOp::Mul, uint(8, 4), name(&x))],
        }],
        main: 0,
        constants: vec![],
    };
    assert_eq!(ConstantInliner::inline(p), Ok(expected));
}

#[test]
fn a_constant_must_be_defined_before_its_use() {
    let constant = |id: usize| TypedExpression::Constant(id, Type::Uint(8));
    let p = TypedProgram {
        functions: vec![],
        main: 0,
        constants: vec![constant(1), uint(8, 3)],
    };
    assert_eq!(ConstantInliner::inline(p), Err(InlinerError::Undefined(1)));
    let mut p = program(vec![], vec![constant(2)]);
    p.constants = vec![uint(8, 3), uint(8, 4)];
    assert_eq!(ConstantInliner::inline(p), Err(InlinerError::Undefined(2)));
    assert_eq!(InlinerError::Undefined(2).message(), "use of an undefined constant");
}

#[test]
fn a_constant_must_have_a_value() {
    let p = TypedProgram {
        functions: vec![],
        main: 0,
        constants: vec![binary(BinaryOp::Div, uint(8, 3), uint(8, 0))],
    };
    let error = InlinerError::Evaluation(PropagationError::DivisionByZero);
    assert_eq!(ConstantInliner::inline(p), Err(error));
    assert_eq!(error.message(), "division by zero");
}

#[test]
fn isolation_marks_every_conditional() {
    let c = Variable::new(0, Type::Boolean);
    let conditional = |isolated: bool, a: TypedExpression| {
        TypedExpression::IfElse(Box::new(name(&c)), Box::new(a), Box::new(uint(8, 0)), isolated)
    };
    let nested = |isolated: bool| {
        program(
            vec![TypedStatement::For(
                Variable::new(1, Type::Uint(32)),
                index(0),
                index(2),
                vec![TypedStatement::Assertion(binary(
                    BinaryOp::Eq,
                    conditional(isolated, conditional(isolated, uint(8, 1))),
                    uint(8, 1),
                ))],
            )],
            vec![TypedExpression::Call(
                0,
                vec![conditional(isolated, uint(8, 2))],
                Type::Uint(8),
            )],
        )
    };
    assert_eq!(Isolator::isolate(nested(false)), nested(true));
    assert_eq!(Isolator::isolate(nested(true)), nested(true));
}

#[test]
fn the_type_of_an_expression() {
    let a = Variable::new(0, array_of(array_of(Type::FieldElement, 3), 2));
    assert_eq!(get_type(&name(&a)), array_of(array_of(Type::FieldElement, 3), 2));
    assert_eq!(get_type(&select(name(&a), index(0))), array_of(Type::FieldElement, 3));
    assert_eq!(get_type(&select(select(name(&a), index(0)), index(1))), Type::FieldElement);
    assert_eq!(get_type(&binary(BinaryOp::Lt, index(0), index(1))), Type::Boolean);
    assert_eq!(get_type(&binary(BinaryOp::Add, index(0), index(1))), Type::Uint(32));
    assert_eq!(
        get_type(&TypedExpression::Array(Type::Boolean, vec![])),
        array_of(Type::Boolean, 0)
    );
    assert_eq!(array_of(array_of(Type::FieldElement, 3), 2).count_leaves(), 6);
    assert_eq!(array_of(array_of(Type::FieldElement, 0x10000), 0x10000).count_leaves(), u32::MAX);
    assert_eq!(array_of(array_of(Type::Uint(8), 3), 2).scalar_type(), Type::Uint(8));
}

#[test]
fn the_signature_of_a_program() {
    let x = Variable::new(0, Type::FieldElement);
    let a = Variable::new(1, array_of(Type::Uint(8), 2));
    let p = TypedProgram {
        functions: vec![TypedFunction {
            arguments: vec![Parameter::private(x.clone()), Parameter::public(a.clone())],
            statements: vec![],
            returns: vec![
                binary(BinaryOp::Eq, name(&x), name(&x)),
                name(&a),
                select(name(&a), index(0)),
            ],
        }],
        main: 0,
        constants: vec![],
    };
    let expected = Abi {
        inputs: vec![
            AbiInput { private: true, ty: Type::FieldElement },
            AbiInput { private: false, ty: array_of(Type::Uint(8), 2) },
        ],
        outputs: vec![Type::Boolean, array_of(Type::Uint(8), 2), Type::Uint(8)],
    };
    assert_eq!(p.abi(), expected);
    let empty = TypedProgram { functions: vec![], main: 0, constants: vec![] };
    assert_eq!(empty.abi(), Abi { inputs: vec![], outputs: vec![] });
}

#[test]
fn a_write_to_an_element_becomes_a_write_of_the_array() {
    // a[i] = v
    let a = Variable::new(0, array_of(Type::Uint(8), 2));
    let i = Variable::new(1, Type::Uint(32));
    let v = Variable::new(2, Type::Uint(8));
    let target = TypedAssignee::Select(
        Box::new(TypedAssignee::Identifier(a.clone())),
        Box::new(name(&i)),
    );
    let p = program(
        vec![
            TypedStatement::Definition(target, name(&v)),
            TypedStatement::Assertion(binary(BinaryOp::Eq, name(&v), name(&v))),
        ],
        vec![name(&a)],
    );
    let element = |j: u64| {
        if_else(
            binary(BinaryOp::Eq, name(&i), index(j)),
            name(&v),
            select(name(&a), index(j)),
        )
    };
    let expected = program(
        vec![
            assign(&a, TypedExpression::Array(Type::Uint(8), vec![element(0), element(1)])),
            TypedStatement::Assertion(binary(BinaryOp::Eq, name(&v), name(&v))),
        ],
        vec![name(&a)],
    );
    assert_eq!(VariableWriteRemover::apply(p), expected);
}

#[test]
fn a_write_to_an_element_of_an_element() {
    // a[1][i] = v, with a of two arrays of two
    let a = Variable::new(0, array_of(array_of(Type::Uint(8), 2), 2));
    let i = Variable::new(1, Type::Uint(32));
    let v = Variable::new(2, Type::Uint(8));
    let target = TypedAssignee::Select(
        Box::new(TypedAssignee::Select(
            Box::new(TypedAssignee::Identifier(a.clone())),
            Box::new(index(1)),
        )),
        Box::new(name(&i)),
    );
    let row = select(name(&a), index(1));
    let inner = |j: u64| {
        if_else(
            binary(BinaryOp::Eq, name(&i), index(j)),
            name(&v),
            select(row.clone(), index(j)),
        )
    };
    let new_row = TypedExpression::Array(Type::Uint(8), vec![inner(0), inner(1)]);
    let outer = |j: u64| {
        if_else(
            binary(BinaryOp::Eq, index(1), index(j)),
            new_row.clone(),
            select(name(&a), index(j)),
        )
    };
    let expected = assign(
        &a,
        TypedExpression::Array(array_of(Type::Uint(8), 2), vec![outer(0), outer(1)]),
    );
    assert_eq!(
        VariableWriteRemover::apply_statement(&TypedStatement::Definition(target, name(&v))),
        expected
    );
    let plain = assign(&v, uint(8, 1));
    assert_eq!(VariableWriteRemover::apply_statement(&plain), plain);
}

#[test]
fn the_amount_of_a_shift_must_be_a_constant() {
    let x = Variable::new(0, Type::Uint(8));
    let n = Variable::new(1, Type::Uint(8));
    let good = program(
        vec![assign(&x, binary(BinaryOp::LeftShift, name(&x), uint(8, 2)))],
        vec![binary(BinaryOp::RightShift, name(&x), uint(8, 1))],
    );
    assert_eq!(ConstantArgumentChecker::check(good.clone()), Ok(good));
    let bad = program(vec![assign(&x, binary(BinaryOp::LeftShift, name(&x), name(&n)))], vec![]);
    assert_eq!(ConstantArgumentChecker::check(bad), Err(ArgumentError::ShiftAmount));
    let bad = program(vec![], vec![binary(BinaryOp::RightShift, uint(8, 1), name(&n))]);
    assert_eq!(ConstantArgumentChecker::check(bad), Err(ArgumentError::ShiftAmount));
    assert_eq!(
        ArgumentError::ShiftAmount.message(),
        "the amount of a shift is not a constant"
    );
}

#[test]
fn the_bound_of_a_field_comparison_must_be_a_constant() {
    let x = Variable::new(0, Type::FieldElement);
    let y = Variable::new(1, Type::FieldElement);
    let u = Variable::new(2, Type::Uint(8));
    let ten = TypedExpression::Value(Value::Field(FieldElement::from_u64(10)));
    let good = program(
        vec![
            TypedStatement::Assertion(binary(BinaryOp::Lt, name(&x), ten)),
            TypedStatement::Assertion(binary(BinaryOp::Lt, name(&u), name(&u))),
        ],
        vec![],
    );
    assert_eq!(ConstantArgumentChecker::check(good.clone()), Ok(good));
    let bad = program(
        vec![
            TypedStatement::Assertion(binary(BinaryOp::Lt, name(&x), name(&y))),
            assign(&u, binary(BinaryOp::LeftShift, name(&u), name(&u))),
        ],
        vec![],
    );
    assert_eq!(ConstantArgumentChecker::check(bad), Err(ArgumentError::ComparisonBound));
    assert_eq!(
        ArgumentError::ComparisonBound.message(),
        "the bound of a comparison is not a constant"
    );
}

#[test]
fn an_array_is_flattened_to_its_scalars() {
    // def main(private a: u8[2][2], b: bool) { c = a[1]; assert(c == a[0]); return c[1] + 1 }
    let a = Variable::new(0, array_of(array_of(Type::Uint(8), 2), 2));
    let b = Variable::new(1, Type::Boolean);
    let c = Variable::new(2, array_of(Type::Uint(8), 2));
    let p = TypedProgram {
        functions: vec![TypedFunction {
            arguments: vec![Parameter::private(a.clone()), Parameter::public(b.clone())],
            statements: vec![
                assign(&c, select(name(&a), index(1))),
                TypedStatement::Assertion(binary(
                    BinaryOp::Eq,
                    name(&c),
                    select(name(&a), index(0)),
                )),
            ],
            returns: vec![binary(BinaryOp::Add, select(name(&c), index(1)), uint(8, 1))],
        }],
        main: 0,
        constants: vec![],
    };
    let u8_type = ZirType::Uint(8);
    let parameter = |variable: ZirVariable, private: bool| ZirParameter { variable, private };
    let equal = |k: u32| zbinary(BinaryOp::Eq, zname(2, k, u8_type), zname(0, k, u8_type));
    let expected = ZirProgram {
        arguments: vec![
            parameter(leaf(0, 0, u8_type), true),
            parameter(leaf(0, 1, u8_type), true),
            parameter(leaf(0, 2, u8_type), true),
            parameter(leaf(0, 3, u8_type), true),
            parameter(leaf(1, 0, ZirType::Boolean), false),
        ],
        statements: vec![
            ZirStatement::Definition(leaf(2, 0, u8_type), zname(0, 2, u8_type)),
            ZirStatement::Definition(leaf(2, 1, u8_type), zname(0, 3, u8_type)),
            ZirStatement::Assertion(zbinary(BinaryOp::And, equal(0), equal(1))),
        ],
        returns: vec![reduce(8, zbinary(BinaryOp::Add, zname(2, 1, u8_type), zvalue(8, 1)))],
    };
    assert_eq!(Flattener::flatten(p), expected);
}

#[test]
fn a_selection_at_an_unknown_index_blends_the_elements() {
    let a = Variable::new(0, array_of(Type::FieldElement, 3));
    let i = Variable::new(1, Type::Uint(32));
    let field = ZirType::FieldElement;
    let is = |j: u64| zbinary(BinaryOp::Eq, zname(1, 0, ZirType::Uint(32)), zindex(j));
    let expected =
        zif(is(0), zname(0, 0, field), zif(is(1), zname(0, 1, field), zname(0, 2, field)));
    assert_eq!(Flattener::flatten_expression(&select(name(&a), name(&i))), vec![expected]);
    // an index beyond the array gives the default of the type
    let zero = ZirExpression::Value(Value::Field(FieldElement::zero()));
    assert_eq!(Flattener::flatten_expression(&select(name(&a), index(3))), vec![zero]);
}

#[test]
fn conditionals_and_operators_are_flattened_by_scalar() {
    let a = Variable::new(0, array_of(Type::Boolean, 2));
    let b = Variable::new(1, array_of(Type::Boolean, 2));
    let c = Variable::new(2, Type::Boolean);
    let boolean = ZirType::Boolean;
    let choice = |k: u32| zif(zname(2, 0, boolean), zname(0, k, boolean), zname(1, k, boolean));
    assert_eq!(
        Flattener::flatten_expression(&if_else(name(&c), name(&a), name(&b))),
        vec![choice(0), choice(1)]
    );
    assert_eq!(
        Flattener::flatten_expression(&TypedExpression::Not(Box::new(name(&c)))),
        vec![ZirExpression::Not(Box::new(zname(2, 0, boolean)))]
    );
    let x = Variable::new(3, Type::Uint(16));
    let operands = || (zname(3, 0, ZirType::Uint(16)), zvalue(16, 3));
    for op in [BinaryOp::Add, BinaryOp::Sub, BinaryOp::Mul, BinaryOp::LeftShift] {
        let (l, r) = operands();
        assert_eq!(
            Flattener::flatten_expression(&binary(op, name(&x), uint(16, 3))),
            vec![reduce(16, zbinary(op, l, r))]
        );
    }
    for op in [BinaryOp::Div, BinaryOp::Rem, BinaryOp::RightShift, BinaryOp::Lt] {
        let (l, r) = operands();
        assert_eq!(
            Flattener::flatten_expression(&binary(op, name(&x), uint(16, 3))),
            vec![zbinary(op, l, r)]
        );
    }
    let nothing: Vec<ZirStatement> = vec![];
    assert_eq!(
        Flattener::flatten_statement(&TypedStatement::For(x.clone(), index(0), index(1), vec![])),
        nothing
    );
}

#[test]
fn folding_in_the_flat_tier() {
    let x = zname(0, 0, ZirType::Uint(8));
    let fold = |e: ZirExpression| ZirPropagator::fold(&e);
    assert_eq!(
        fold(reduce(8, zbinary(BinaryOp::Add, zvalue(8, 200), zvalue(8, 100)))),
        Ok(zvalue(8, 44))
    );
    assert_eq!(
        fold(reduce(8, zbinary(BinaryOp::Mul, zvalue(8, 16), zvalue(8, 17)))),
        Ok(zvalue(8, 16))
    );
    assert_eq!(fold(reduce(8, zvalue(8, 300))), Ok(zvalue(8, 44)));
    // the exact sum is not written as a literal of eight bits
    let sum = zbinary(BinaryOp::Add, zvalue(8, 200), zvalue(8, 100));
    assert_eq!(fold(sum.clone()), Ok(sum));
    assert_eq!(fold(zbinary(BinaryOp::Div, zvalue(8, 200), zvalue(8, 3))), Ok(zvalue(8, 66)));
    assert_eq!(fold(zbinary(BinaryOp::Rem, zvalue(8, 200), zvalue(8, 3))), Ok(zvalue(8, 2)));
    assert_eq!(
        fold(zbinary(BinaryOp::RightShift, zvalue(8, 200), zvalue(8, 3))),
        Ok(zvalue(8, 25))
    );
    assert_eq!(
        fold(zbinary(BinaryOp::Lt, zvalue(8, 200), zvalue(8, 3))),
        Ok(ZirExpression::Value(Value::Boolean(false)))
    );
    assert_eq!(
        fold(zif(zbinary(BinaryOp::Eq, zindex(1), zindex(1)), x.clone(), zvalue(8, 0))),
        Ok(x.clone())
    );
    assert_eq!(
        fold(zbinary(BinaryOp::Div, x.clone(), zvalue(8, 0))),
        Err(ZirError::DivisionByZero)
    );
    assert_eq!(ZirError::DivisionByZero.message(), "division by zero");
}

#[test]
fn propagation_of_a_flat_program() {
    let x = leaf(0, 0, ZirType::Uint(8));
    let is = |a: u64, b: u64| zbinary(BinaryOp::Eq, zindex(a), zindex(b));
    let p = ZirProgram {
        arguments: vec![ZirParameter { variable: x, private: true }],
        statements: vec![
            ZirStatement::Assertion(is(1, 1)),
            ZirStatement::Definition(x, zif(is(0, 1), zvalue(8, 1), zvalue(8, 2))),
            ZirStatement::Assertion(is(0, 1)),
        ],
        returns: vec![reduce(8, zbinary(BinaryOp::Sub, zvalue(8, 1), zvalue(8, 2)))],
    };
    let expected = ZirProgram {
        arguments: vec![ZirParameter { variable: x, private: true }],
        statements: vec![
            ZirStatement::Definition(x, zvalue(8, 2)),
            ZirStatement::Assertion(ZirExpression::Value(Value::Boolean(false))),
        ],
        returns: vec![zvalue(8, 255)],
    };
    assert_eq!(ZirPropagator::propagate(p.clone()), Ok(expected));
    let mut bad = p;
    bad.returns.push(zbinary(BinaryOp::Rem, zvalue(8, 1), zvalue(8, 0)));
    assert_eq!(ZirPropagator::propagate(bad), Err(ZirError::DivisionByZero));
}

#[test]
fn reductions_of_values_within_range_are_removed() {
    let x = zname(0, 0, ZirType::Uint(8));
    let wide = zname(1, 0, ZirType::Uint(16));
    let sum = zbinary(BinaryOp::Add, x.clone(), x.clone());
    let optimize = |e: ZirExpression| UintOptimizer::optimize_expression(&e);
    assert_eq!(optimize(reduce(8, x.clone())), x.clone());
    assert_eq!(optimize(reduce(16, x.clone())), x.clone());
    assert_eq!(optimize(reduce(8, wide.clone())), reduce(8, wide.clone()));
    assert_eq!(optimize(reduce(8, sum.clone())), reduce(8, sum.clone()));
    assert_eq!(optimize(reduce(8, reduce(8, sum.clone()))), reduce(8, sum.clone()));
    assert_eq!(optimize(reduce(16, reduce(8, sum.clone()))), reduce(8, sum.clone()));
    assert_eq!(optimize(reduce(8, reduce(16, sum.clone()))), reduce(8, reduce(16, sum.clone())));
    assert_eq!(optimize(reduce(8, zvalue(8, 255))), zvalue(8, 255));
    assert_eq!(optimize(reduce(8, zvalue(8, 256))), reduce(8, zvalue(8, 256)));
    assert_eq!(optimize(reduce(64, zvalue(64, u64::MAX))), zvalue(64, u64::MAX));
    let c = zname(2, 0, ZirType::Boolean);
    let choice = zif(c.clone(), x.clone(), reduce(8, sum.clone()));
    assert_eq!(optimize(reduce(8, choice.clone())), choice);
    // the sum of two reduced operands still needs its reduction
    let nested = zbinary(BinaryOp::Add, reduce(8, x.clone()), reduce(8, sum.clone()));
    assert_eq!(
        optimize(reduce(8, nested)),
        reduce(8, zbinary(BinaryOp::Add, x.clone(), reduce(8, sum.clone())))
    );
    let p = ZirProgram {
        arguments: vec![],
        statements: vec![
            ZirStatement::Definition(leaf(0, 0, ZirType::Uint(8)), reduce(8, x.clone())),
            ZirStatement::Assertion(zbinary(BinaryOp::Eq, reduce(8, x.clone()), x.clone())),
        ],
        returns: vec![reduce(8, x.clone())],
    };
    let expected = ZirProgram {
        arguments: vec![],
        statements: vec![
            ZirStatement::Definition(leaf(0, 0, ZirType::Uint(8)), x.clone()),
            ZirStatement::Assertion(zbinary(BinaryOp::Eq, x.clone(), x.clone())),
        ],
        returns: vec![x.clone()],
    };
    assert_eq!(UintOptimizer::optimize(p), expected);
}
