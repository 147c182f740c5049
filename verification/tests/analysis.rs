use zokrates_core::compile::CompileConfig;
use zokrates_core::field::FieldElement;
use zokrates_core::ir::{FlatParameter, FlatVariable, LinComb, Prog, QuadComb, Statement};
use zokrates_core::ir::{Directive, Solver};
use zokrates_core::static_analysis::unconstrained_vars::{
    Error as UnconstrainedError, UnconstrainedVariableDetector,
};
use zokrates_core::static_analysis::{Analyse, Error};
use zokrates_core::static_analysis::{
    constant_argument_checker, constant_inliner, propagation, reducer, zir_propagation,
};
use zokrates_core::typed_absy::abi::{Abi, AbiInput};
use zokrates_core::typed_absy::operators::BinaryOp;
use zokrates_core::typed_absy::types::{Type, Value, Variable};
use zokrates_core::typed_absy::{
    Parameter, TypedAssignee, TypedExpression, TypedFunction, TypedProgram, TypedStatement,
};
use zokrates_core::zir::{
    ZirExpression, ZirParameter, ZirProgram, ZirStatement, ZirType, ZirVariable,
};

fn uint(v: u64) -> TypedExpression {
    TypedExpression::Value(Value::Uint(32, v))
}

fn name(v: &Variable) -> TypedExpression {
    TypedExpression::Identifier(v.clone())
}

fn binary(op: BinaryOp, a: TypedExpression, b: TypedExpression) -> TypedExpression {
    TypedExpression::Binary(op, Box::new(a), Box::new(b))
}

fn assign(v: &Variable, e: TypedExpression) -> TypedStatement {
    TypedStatement::Definition(TypedAssignee::Identifier(v.clone()), e)
}

fn main_only(
    arguments: Vec<Parameter>,
    statements: Vec<TypedStatement>,
    returns: Vec<TypedExpression>,
) -> TypedProgram {
    TypedProgram {
        functions: vec![TypedFunction { arguments, statements, returns }],
        main: 0,
        constants: vec![],
    }
}

fn zvar(id: usize, version: usize, ty: ZirType) -> ZirVariable {
    ZirVariable { id, version, leaf: 0, ty }
}

fn zbinary(op: BinaryOp, a: ZirExpression, b: ZirExpression) -> ZirExpression {
    ZirExpression::Binary(op, Box::new(a), Box::new(b))
}

fn failure(r: Result<(ZirProgram, Abi), Error>) -> Error {
    match r {
        Ok(_) => panic!("the analysis succeeded"),
        Err(e) => e,
    }
}

#[test]
fn an_assertion_on_a_free_variable_reaches_the_flat_tier() {
    // def main(private field x) { assert(x * x == x); assert(x * x == x); return x }
    let x = Variable::new(0, Type::FieldElement);
    let claim = || {
        TypedStatement::Assertion(binary(
            BinaryOp::Eq,
            binary(BinaryOp::Mul, name(&x), name(&x)),
            name(&x),
        ))
    };
    let p = main_only(vec![Parameter::private(x.clone())], vec![claim(), claim()], vec![name(&x)]);
    let x0 = zvar(0, 0, ZirType::FieldElement);
    let flat_claim = || {
        ZirStatement::Assertion(zbinary(
            BinaryOp::Eq,
            zbinary(BinaryOp::Mul, ZirExpression::Identifier(x0), ZirExpression::Identifier(x0)),
            ZirExpression::Identifier(x0),
        ))
    };
    let expected = ZirProgram {
        arguments: vec![ZirParameter { variable: x0, private: true }],
        statements: vec![flat_claim(), flat_claim()],
        returns: vec![ZirExpression::Identifier(x0)],
    };
    let abi = Abi {
        inputs: vec![AbiInput { private: true, ty: Type::FieldElement }],
        outputs: vec![Type::FieldElement],
    };
    let (zir, signature) = p.analyse(&CompileConfig::default()).unwrap();
    assert_eq!(zir, expected);
    assert_eq!(signature, abi);
}

#[test]
fn a_loop_becomes_one_addition() {
    // def main(u32 y) { for i in 0..3 { y = y + i }; return y }
    let y = Variable::new(0, Type::Uint(32));
    let i = Variable::new(1, Type::Uint(32));
    let p = main_only(
        vec![Parameter::public(y.clone())],
        vec![TypedStatement::For(
            i.clone(),
            uint(0),
            uint(3),
            vec![assign(&y, binary(BinaryOp::Add, name(&y), name(&i)))],
        )],
        vec![name(&y)],
    );
    let y0 = zvar(0, 0, ZirType::Uint(32));
    let expected = ZirProgram {
        arguments: vec![ZirParameter { variable: y0, private: false }],
        statements: vec![ZirStatement::Definition(
            y0,
            ZirExpression::Reduce(
                32,
                Box::new(zbinary(
                    BinaryOp::Add,
                    ZirExpression::Identifier(y0),
                    ZirExpression::Value(Value::Uint(32, 3)),
                )),
            ),
        )],
        returns: vec![ZirExpression::Identifier(y0)],
    };
    let (zir, _) = p.analyse(&CompileConfig::default()).unwrap();
    assert_eq!(zir, expected);
}

#[test]
fn a_program_of_constants_folds_to_its_result() {
    // const N = 2 + 1; def double(a) { return a + a }
    // def main() { u32 y = 5; for i in 0..N { y = y + double(i) }; return y }
    let a = Variable::new(0, Type::Uint(32));
    let double = TypedFunction {
        arguments: vec![Parameter::private(a.clone())],
        statements: vec![],
        returns: vec![binary(BinaryOp::Add, name(&a), name(&a))],
    };
    let y = Variable::new(0, Type::Uint(32));
    let i = Variable::new(1, Type::Uint(32));
    let main = TypedFunction {
        arguments: vec![],
        statements: vec![
            assign(&y, uint(5)),
            TypedStatement::For(
                i.clone(),
                uint(0),
                TypedExpression::Constant(0, Type::Uint(32)),
                vec![assign(
                    &y,
                    binary(
                        BinaryOp::Add,
                        name(&y),
                        TypedExpression::Call(0, vec![name(&i)], Type::Uint(32)),
                    ),
                )],
            ),
        ],
        returns: vec![name(&y)],
    };
    let p = TypedProgram {
        functions: vec![double, main],
        main: 1,
        constants: vec![binary(BinaryOp::Add, uint(2), uint(1))],
    };
    let (zir, abi) = p.analyse(&CompileConfig { isolate_branches: true }).unwrap();
    // 5 + 0 + 2 + 4
    assert_eq!(zir.returns, vec![ZirExpression::Value(Value::Uint(32, 11))]);
    assert!(zir.arguments.is_empty());
    assert_eq!(abi, Abi { inputs: vec![], outputs: vec![Type::Uint(32)] });
    let literal = |s: &ZirStatement| {
        matches!(s, ZirStatement::Definition(_, ZirExpression::Value(Value::Uint(32, _))))
    };
    assert!(zir.statements.iter().all(literal));
}

#[test]
fn isolation_is_a_matter_of_configuration() {
    // def check(a) { assert(a < 5); return a }   def main(c, x) { return if c { check(x) } else { x } }
    let a = Variable::new(0, Type::Uint(32));
    let check = TypedFunction {
        arguments: vec![Parameter::private(a.clone())],
        statements: vec![TypedStatement::Assertion(binary(BinaryOp::Lt, name(&a), uint(5)))],
        returns: vec![name(&a)],
    };
    let c = Variable::new(0, Type::Boolean);
    let x = Variable::new(1, Type::Uint(32));
    let main = TypedFunction {
        arguments: vec![Parameter::private(c.clone()), Parameter::private(x.clone())],
        statements: vec![],
        returns: vec![TypedExpression::IfElse(
            Box::new(name(&c)),
            Box::new(TypedExpression::Call(0, vec![name(&x)], Type::Uint(32))),
            Box::new(name(&x)),
            false,
        )],
    };
    let p = TypedProgram { functions: vec![check, main], main: 1, constants: vec![] };
    let bound = zbinary(
        BinaryOp::Lt,
        ZirExpression::Identifier(zvar(0, 1, ZirType::Uint(32))),
        ZirExpression::Value(Value::Uint(32, 5)),
    );
    let guarded = zbinary(
        BinaryOp::Or,
        ZirExpression::Not(Box::new(ZirExpression::Identifier(zvar(0, 0, ZirType::Boolean)))),
        bound.clone(),
    );
    let (plain, _) = p.clone().analyse(&CompileConfig { isolate_branches: false }).unwrap();
    assert_eq!(plain.statements[1], ZirStatement::Assertion(bound));
    let (isolated, _) = p.analyse(&CompileConfig { isolate_branches: true }).unwrap();
    assert_eq!(isolated.statements[1], ZirStatement::Assertion(guarded));
}

#[test]
fn the_first_pass_that_fails_names_the_error() {
    let x = Variable::new(0, Type::Uint(32));
    let config = CompileConfig::default();
    // an undefined constant
    let p = main_only(vec![], vec![], vec![TypedExpression::Constant(0, Type::Uint(32))]);
    let e = failure(p.analyse(&config));
    assert!(matches!(e, Error::ConstantInliner(constant_inliner::Error::Undefined(0))));
    assert_eq!(e.message(), "use of an undefined constant");
    // a recursive call
    let p = main_only(vec![], vec![], vec![TypedExpression::Call(0, vec![], Type::Uint(32))]);
    let e = failure(p.analyse(&config));
    assert!(matches!(e, Error::Reducer(reducer::Error::UnknownFunction(0))));
    assert_eq!(e.message(), "call of a function that is not declared before its caller");
    // a division by zero
    let p = main_only(
        vec![Parameter::private(x.clone())],
        vec![],
        vec![binary(BinaryOp::Div, name(&x), binary(BinaryOp::Sub, uint(1), uint(1)))],
    );
    let e = failure(p.analyse(&config));
    assert!(matches!(e, Error::Propagation(propagation::Error::DivisionByZero)));
    assert_eq!(e.message(), "division by zero");
    // a shift by a variable
    let p = main_only(
        vec![Parameter::private(x.clone())],
        vec![],
        vec![binary(BinaryOp::LeftShift, uint(1), name(&x))],
    );
    let e = failure(p.analyse(&config));
    assert!(matches!(
        e,
        Error::NonConstantArgument(constant_argument_checker::Error::ShiftAmount)
    ));
    assert_eq!(e.message(), "the amount of a shift is not a constant");
    // the errors of the other passes under their names
    let e = Error::from(zir_propagation::Error::DivisionByZero);
    assert!(matches!(e, Error::ZirPropagation(zir_propagation::Error::DivisionByZero)));
    assert_eq!(e.message(), "division by zero");
    let e = Error::from(UnconstrainedError { variables: vec![FlatVariable::new(0)] });
    assert!(matches!(e, Error::UnconstrainedVariable(_)));
    assert_eq!(e.message(), "found unconstrained variables during IR analysis");
    assert!(matches!(
        Error::from(constant_inliner::Error::Undefined(1)),
        Error::ConstantInliner(_)
    ));
    assert!(matches!(Error::from(reducer::Error::LoopBound), Error::Reducer(_)));
    assert!(matches!(
        Error::from(propagation::Error::DivisionByZero),
        Error::Propagation(_)
    ));
    assert!(matches!(
        Error::from(constant_argument_checker::Error::ComparisonBound),
        Error::NonConstantArgument(_)
    ));
}

#[test]
fn an_earlier_pass_fails_before_a_later_one() {
    // both an undefined constant and a division by zero: the inlining comes first
    let p = main_only(
        vec![],
        vec![TypedStatement::Assertion(binary(
            BinaryOp::Eq,
            binary(BinaryOp::Div, uint(1), uint(0)),
            TypedExpression::Constant(3, Type::Uint(32)),
        ))],
        vec![],
    );
    let e = failure(p.analyse(&CompileConfig::default()));
    assert!(matches!(e, Error::ConstantInliner(constant_inliner::Error::Undefined(3))));
}

fn constraint(a: FlatVariable, b: FlatVariable, c: FlatVariable) -> Statement {
    Statement::constraint(
        QuadComb::from_linear_combinations(LinComb::summand(1, a), LinComb::summand(1, b)),
        LinComb::summand(1, c),
    )
}

#[test]
fn a_constrained_program_passes() {
    let x = FlatVariable::new(0);
    let y = FlatVariable::new(1);
    let out = FlatVariable::public(0);
    let p = Prog {
        statements: vec![
            Statement::Directive(Directive {
                inputs: vec![QuadComb::from_linear_combinations(
                    LinComb::summand(2, x),
                    LinComb::one(),
                )],
                outputs: vec![y],
                solver: Solver::Div,
            }),
            constraint(x, y, out),
        ],
        arguments: vec![
            FlatParameter::private(x),
            FlatParameter::public(FlatVariable::new(9)),
        ],
        returns: vec![out, FlatVariable::new(8)],
    };
    assert_eq!(UnconstrainedVariableDetector::detect(&p), Ok(()));
    assert_eq!(p.clone().analyse().unwrap(), p);
}

#[test]
fn unconstrained_variables_are_listed_once_and_in_order() {
    let v = FlatVariable::new;
    let p = Prog {
        statements: vec![
            Statement::Directive(Directive {
                inputs: vec![QuadComb::from_linear_combinations(
                    LinComb(vec![
                        (v(5), FieldElement::one()),
                        (v(0), FieldElement::one()),
                        (FlatVariable::one(), FieldElement::one()),
                    ]),
                    LinComb::summand(1, v(3)),
                )],
                outputs: vec![v(6), v(2), v(5)],
                solver: Solver::Bits(2),
            }),
            constraint(v(2), v(2), v(1)),
        ],
        arguments: vec![
            FlatParameter::private(v(4)),
            FlatParameter::public(v(7)),
            FlatParameter::private(v(3)),
            FlatParameter::private(v(1)),
            FlatParameter::private(v(4)),
        ],
        returns: vec![v(0)],
    };
    // private arguments first, then what the directive reads, then what it assigns;
    // 1 and 2 are constrained, 0 is returned, 7 is public
    let expected = UnconstrainedError { variables: vec![v(4), v(3), v(5), v(6)] };
    assert_eq!(UnconstrainedVariableDetector::detect(&p), Err(expected));
    match p.analyse() {
        Err(Error::UnconstrainedVariable(e)) => {
            assert_eq!(e.variables, vec![v(4), v(3), v(5), v(6)]);
            assert_eq!(e.message(), "found unconstrained variables during IR analysis");
        }
        _ => panic!("the program passed"),
    }
}

#[test]
fn an_empty_program_passes() {
    let p = Prog { statements: vec![], arguments: vec![], returns: vec![] };
    assert_eq!(p.clone().analyse().unwrap(), p);
    let private = Prog {
        statements: vec![],
        arguments: vec![FlatParameter::private(FlatVariable::new(0))],
        returns: vec![],
    };
    assert!(private.analyse().is_err());
}
