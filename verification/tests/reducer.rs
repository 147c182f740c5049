use zokrates_core::static_analysis::reducer::{reduce_program, Error};
use zokrates_core::typed_absy::operators::BinaryOp;
use zokrates_core::typed_absy::types::{Type, Value, Variable};
use zokrates_core::typed_absy::{
    Parameter, TypedAssignee, TypedExpression, TypedFunction, TypedProgram, TypedStatement,
};

fn uint(v: u64) -> TypedExpression {
    TypedExpression::Value(Value::Uint(32, v))
}

fn variable(id: usize) -> Variable {
    Variable::new(id, Type::Uint(32))
}

fn versioned(id: usize, version: usize) -> Variable {
    Variable { id, version, ty: Type::Uint(32) }
}

fn name(v: &Variable) -> TypedExpression {
    TypedExpression::Identifier(v.clone())
}

fn binary(op: BinaryOp, a: TypedExpression, b: TypedExpression) -> TypedExpression {
    TypedExpression::Binary(op, Box::new(a), Box::new(b))
}

fn add(a: TypedExpression, b: TypedExpression) -> TypedExpression {
    binary(BinaryOp::Add, a, b)
}

fn call(f: usize, arguments: Vec<TypedExpression>) -> TypedExpression {
    TypedExpression::Call(f, arguments, Type::Uint(32))
}

fn assign(v: &Variable, e: TypedExpression) -> TypedStatement {
    TypedStatement::Definition(TypedAssignee::Identifier(v.clone()), e)
}

fn function(
    arguments: Vec<Variable>,
    statements: Vec<TypedStatement>,
    returns: Vec<TypedExpression>,
) -> TypedFunction {
    TypedFunction {
        arguments: arguments.into_iter().map(Parameter::private).collect(),
        statements,
        returns,
    }
}

fn program(functions: Vec<TypedFunction>) -> TypedProgram {
    let main = functions.len() - 1;
    TypedProgram { functions, main, constants: vec![] }
}

fn reduced(f: TypedFunction) -> Result<TypedProgram, Error> {
    Ok(TypedProgram { functions: vec![f], main: 0, constants: vec![] })
}

fn expression_is_flat(e: &TypedExpression) -> bool {
    match e {
        TypedExpression::Call(_, _, _) => false,
        TypedExpression::Not(a) => expression_is_flat(a),
        TypedExpression::Binary(_, a, b) | TypedExpression::Select(a, b) => {
            expression_is_flat(a) && expression_is_flat(b)
        }
        TypedExpression::IfElse(c, a, b, _) => {
            expression_is_flat(c) && expression_is_flat(a) && expression_is_flat(b)
        }
        TypedExpression::Array(_, elements) => elements.iter().all(expression_is_flat),
        _ => true,
    }
}

fn program_is_flat(p: &TypedProgram) -> bool {
    p.functions.iter().all(|f| {
        f.returns.iter().all(expression_is_flat)
            && f.statements.iter().all(|s| match s {
                TypedStatement::Definition(TypedAssignee::Identifier(_), e) => {
                    expression_is_flat(e)
                }
                TypedStatement::Definition(_, _) => false,
                TypedStatement::Assertion(e) => expression_is_flat(e),
                TypedStatement::For(_, _, _, _) => false,
            })
    })
}

#[test]
fn a_loop_is_unrolled() {
    // for i in 0..3 { y = y + i }
    let y = variable(0);
    let i = variable(1);
    let main = function(
        vec![y.clone()],
        vec![TypedStatement::For(
            i.clone(),
            uint(0),
            uint(3),
            vec![assign(&y, add(name(&y), name(&i)))],
        )],
        vec![name(&y)],
    );
    let expected = function(
        vec![y.clone()],
        vec![
            assign(&y, add(name(&y), uint(0))),
            assign(&y, add(name(&y), uint(1))),
            assign(&y, add(name(&y), uint(2))),
        ],
        vec![name(&y)],
    );
    assert_eq!(reduce_program(program(vec![main])), reduced(expected));
}

#[test]
fn an_empty_loop_leaves_nothing() {
    let y = variable(0);
    let i = variable(1);
    let body = vec![assign(&y, name(&i))];
    let main = function(
        vec![y.clone()],
        vec![
            TypedStatement::For(i.clone(), uint(3), uint(3), body.clone()),
            TypedStatement::For(i.clone(), uint(5), uint(2), body),
        ],
        vec![],
    );
    assert_eq!(
        reduce_program(program(vec![main])),
        reduced(function(vec![y.clone()], vec![], vec![]))
    );
}

#[test]
fn the_bound_of_an_inner_loop_may_name_the_outer_variable() {
    // for i in 1..4 { for j in 0..i { s = s + j * i } }
    let s = variable(0);
    let i = variable(1);
    let j = variable(2);
    let product = |a: u64, b: u64| binary(BinaryOp::Mul, uint(a), uint(b));
    let main = function(
        vec![s.clone()],
        vec![TypedStatement::For(
            i.clone(),
            uint(1),
            add(uint(2), uint(2)),
            vec![TypedStatement::For(
                j.clone(),
                uint(0),
                name(&i),
                vec![assign(&s, add(name(&s), binary(BinaryOp::Mul, name(&j), name(&i))))],
            )],
        )],
        vec![],
    );
    let step = |a: u64, b: u64| assign(&s, add(name(&s), product(a, b)));
    let expected = function(
        vec![s.clone()],
        vec![step(0, 1), step(0, 2), step(1, 2), step(0, 3), step(1, 3), step(2, 3)],
        vec![],
    );
    assert_eq!(reduce_program(program(vec![main])), reduced(expected));
}

#[test]
fn a_call_is_inlined() {
    // def f(a) { b = a + 1; return b * a }   def main(x) { y = f(x) + f(y); return y }
    let a = variable(0);
    let b = variable(1);
    let f = function(
        vec![a.clone()],
        vec![assign(&b, add(name(&a), uint(1)))],
        vec![binary(BinaryOp::Mul, name(&b), name(&a))],
    );
    let x = variable(0);
    let y = variable(1);
    let main = function(
        vec![x.clone()],
        vec![assign(&y, add(call(0, vec![name(&x)]), call(0, vec![name(&y)])))],
        vec![name(&y)],
    );
    let inlined = |version: usize, argument: &Variable| {
        vec![
            assign(&versioned(0, version), name(argument)),
            assign(&versioned(1, version), add(name(&versioned(0, version)), uint(1))),
        ]
    };
    let result = |version: usize| {
        binary(BinaryOp::Mul, name(&versioned(1, version)), name(&versioned(0, version)))
    };
    let mut statements = inlined(1, &x);
    statements.extend(inlined(2, &y));
    statements.push(assign(&y, add(result(1), result(2))));
    let expected = function(vec![x.clone()], statements, vec![name(&y)]);
    let output = reduce_program(program(vec![f, main]));
    assert_eq!(output, reduced(expected));
    assert!(program_is_flat(&output.unwrap()));
}

#[test]
fn calls_of_calls_get_versions_of_their_own() {
    // def g(a) { return a + 1 }   def f(a) { return g(a) + g(a) }   def main(x) { return f(x) + f(x) }
    let a = variable(0);
    let g = function(vec![a.clone()], vec![], vec![add(name(&a), uint(1))]);
    let f = function(
        vec![a.clone()],
        vec![],
        vec![add(call(0, vec![name(&a)]), call(0, vec![name(&a)]))],
    );
    let x = variable(0);
    let main = function(
        vec![x.clone()],
        vec![],
        vec![add(call(1, vec![name(&x)]), call(1, vec![name(&x)]))],
    );
    // f uses three versions: its own, and one for each call of g
    let inlined_f = |base: usize| {
        vec![
            assign(&versioned(0, base), name(&x)),
            assign(&versioned(0, base + 1), name(&versioned(0, base))),
            assign(&versioned(0, base + 2), name(&versioned(0, base))),
        ]
    };
    let result_f = |base: usize| {
        add(
            add(name(&versioned(0, base + 1)), uint(1)),
            add(name(&versioned(0, base + 2)), uint(1)),
        )
    };
    let mut statements = inlined_f(1);
    statements.extend(inlined_f(4));
    let expected = function(vec![x.clone()], statements, vec![add(result_f(1), result_f(4))]);
    assert_eq!(reduce_program(program(vec![g, f, main])), reduced(expected));
}

#[test]
fn a_call_inside_a_loop_is_inlined_in_each_turn() {
    // def f(a) { return a * a }   def main(y) { for i in 0..2 { y = y + f(i) } }
    let a = variable(0);
    let f = function(vec![a.clone()], vec![], vec![binary(BinaryOp::Mul, name(&a), name(&a))]);
    let y = variable(0);
    let i = variable(1);
    let main = function(
        vec![y.clone()],
        vec![TypedStatement::For(
            i.clone(),
            uint(0),
            uint(2),
            vec![assign(&y, add(name(&y), call(0, vec![name(&i)])))],
        )],
        vec![],
    );
    let turn = |k: u64, version: usize| {
        let square =
            binary(BinaryOp::Mul, name(&versioned(0, version)), name(&versioned(0, version)));
        vec![assign(&versioned(0, version), uint(k)), assign(&y, add(name(&y), square))]
    };
    let mut statements = turn(0, 1);
    statements.extend(turn(1, 2));
    let output = reduce_program(program(vec![f, main]));
    assert_eq!(output, reduced(function(vec![y.clone()], statements, vec![])));
    assert!(program_is_flat(&output.unwrap()));
}

#[test]
fn an_assertion_inside_an_isolated_branch_is_guarded() {
    // def f(a) { assert(a < 5); return a }   def main(c, x) { y = if c { f(x) } else { f(7) } }
    let a = variable(0);
    let bounded = |v: &Variable| binary(BinaryOp::Lt, name(v), uint(5));
    let f = function(
        vec![a.clone()],
        vec![TypedStatement::Assertion(bounded(&a))],
        vec![name(&a)],
    );
    let c = Variable::new(0, Type::Boolean);
    let x = variable(1);
    let y = variable(2);
    let conditional = |isolated: bool, then: TypedExpression, otherwise: TypedExpression| {
        TypedExpression::IfElse(Box::new(name(&c)), Box::new(then), Box::new(otherwise), isolated)
    };
    let main = |isolated: bool| {
        function(
            vec![c.clone(), x.clone()],
            vec![assign(
                &y,
                conditional(isolated, call(0, vec![name(&x)]), call(0, vec![uint(7)])),
            )],
            vec![],
        )
    };
    let guard = |condition: TypedExpression, e: TypedExpression| {
        binary(BinaryOp::Or, TypedExpression::Not(Box::new(condition)), e)
    };
    let output = |isolated: bool| {
        let then_assertion = if isolated {
            guard(name(&c), bounded(&versioned(0, 1)))
        } else {
            bounded(&versioned(0, 1))
        };
        let else_assertion = if isolated {
            guard(TypedExpression::Not(Box::new(name(&c))), bounded(&versioned(0, 2)))
        } else {
            bounded(&versioned(0, 2))
        };
        function(
            vec![c.clone(), x.clone()],
            vec![
                assign(&versioned(0, 1), name(&x)),
                TypedStatement::Assertion(then_assertion),
                assign(&versioned(0, 2), uint(7)),
                TypedStatement::Assertion(else_assertion),
                assign(
                    &y,
                    conditional(isolated, name(&versioned(0, 1)), name(&versioned(0, 2))),
                ),
            ],
            vec![],
        )
    };
    assert_eq!(reduce_program(program(vec![f.clone(), main(false)])), reduced(output(false)));
    assert_eq!(reduce_program(program(vec![f, main(true)])), reduced(output(true)));
}

#[test]
fn only_the_function_where_the_program_starts_is_left() {
    let x = variable(0);
    let helper = function(vec![x.clone()], vec![], vec![name(&x)]);
    let main = function(vec![x.clone()], vec![], vec![add(name(&x), uint(1))]);
    let unused = function(vec![], vec![], vec![call(7, vec![])]);
    let p = TypedProgram {
        functions: vec![helper, main.clone(), unused],
        main: 1,
        constants: vec![],
    };
    assert_eq!(reduce_program(p), reduced(main));
}

#[test]
fn a_program_without_its_main_function_is_an_error() {
    let p = TypedProgram { functions: vec![], main: 0, constants: vec![] };
    assert_eq!(reduce_program(p), Err(Error::NoMain));
    let p = TypedProgram {
        functions: vec![function(vec![], vec![], vec![])],
        main: 1,
        constants: vec![],
    };
    assert_eq!(reduce_program(p), Err(Error::NoMain));
    assert_eq!(
        Error::NoMain.message(),
        "the program does not hold the function where it starts"
    );
}

#[test]
fn recursion_is_an_error() {
    let x = variable(0);
    // a function that calls itself
    let main = function(vec![x.clone()], vec![], vec![call(0, vec![name(&x)])]);
    assert_eq!(reduce_program(program(vec![main])), Err(Error::UnknownFunction(0)));
    // two functions that call each other
    let f = function(vec![x.clone()], vec![], vec![call(1, vec![name(&x)])]);
    let g = function(vec![x.clone()], vec![], vec![call(0, vec![name(&x)])]);
    assert_eq!(reduce_program(program(vec![f, g])), Err(Error::UnknownFunction(1)));
    assert_eq!(
        Error::UnknownFunction(1).message(),
        "call of a function that is not declared before its caller"
    );
}

#[test]
fn a_call_that_does_not_fit_the_function_is_an_error() {
    let x = variable(0);
    let f = function(vec![x.clone()], vec![], vec![name(&x)]);
    let main = function(vec![], vec![], vec![call(0, vec![uint(1), uint(2)])]);
    assert_eq!(reduce_program(program(vec![f, main])), Err(Error::Arity(0)));
    let two_results = function(vec![x.clone()], vec![], vec![name(&x), name(&x)]);
    let main = function(vec![], vec![], vec![call(0, vec![uint(1)])]);
    assert_eq!(reduce_program(program(vec![two_results, main])), Err(Error::Arity(0)));
    assert_eq!(
        Error::Arity(0).message(),
        "call with the wrong number of arguments or results"
    );
}

#[test]
fn a_bound_that_is_no_constant_is_an_error() {
    let n = variable(0);
    let i = variable(1);
    let main = function(
        vec![n.clone()],
        vec![TypedStatement::For(i.clone(), uint(0), name(&n), vec![])],
        vec![],
    );
    assert_eq!(reduce_program(program(vec![main])), Err(Error::LoopBound));
    let main = function(
        vec![],
        vec![TypedStatement::For(
            i.clone(),
            TypedExpression::Value(Value::Boolean(false)),
            uint(1),
            vec![],
        )],
        vec![],
    );
    assert_eq!(reduce_program(program(vec![main])), Err(Error::LoopBound));
    let main = function(
        vec![],
        vec![TypedStatement::For(
            i.clone(),
            uint(0),
            binary(BinaryOp::Div, uint(1), uint(0)),
            vec![],
        )],
        vec![],
    );
    assert_eq!(reduce_program(program(vec![main])), Err(Error::LoopBound));
    assert_eq!(Error::LoopBound.message(), "the bound of a loop is not a constant");
    assert_eq!(Error::TooManyCalls.message(), "too many inlined calls");
}
