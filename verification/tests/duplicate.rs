use zokrates_core::field::FieldElement;
use zokrates_core::ir::{
    Directive, FlatParameter, FlatVariable, LinComb, Prog, QuadComb, Solver, Statement,
};
use zokrates_core::optimizer::canonicalizer::{lin_comb_less_eq, Canonicalizer};
use zokrates_core::optimizer::duplicate::{encode, hash, DuplicateOptimizer};

#[test]
fn identity() {
    let p: Prog = Prog {
        statements: vec![
            Statement::constraint(
                QuadComb::from_linear_combinations(
                    LinComb::summand(3, FlatVariable::new(3)),
                    LinComb::summand(3, FlatVariable::new(3)),
                ),
                LinComb::one(),
            ),
            Statement::constraint(
                QuadComb::from_linear_combinations(
                    LinComb::summand(3, FlatVariable::new(42)),
                    LinComb::summand(3, FlatVariable::new(3)),
                ),
                LinComb::zero(),
            ),
        ],
        returns: vec![],
        arguments: vec![],
    };

    let expected = p.clone();

    assert_eq!(DuplicateOptimizer::optimize(p), expected);
}

#[test]
fn remove_duplicates() {
    let constraint = Statement::constraint(
        QuadComb::from_linear_combinations(
            LinComb::summand(3, FlatVariable::new(3)),
            LinComb::summand(3, FlatVariable::new(3)),
        ),
        LinComb::one(),
    );

    let p: Prog = Prog {
        statements: vec![
            constraint.clone(),
            constraint.clone(),
            Statement::constraint(
                QuadComb::from_linear_combinations(
                    LinComb::summand(3, FlatVariable::new(42)),
                    LinComb::summand(3, FlatVariable::new(3)),
                ),
                LinComb::zero(),
            ),
            constraint.clone(),
            constraint.clone(),
        ],
        returns: vec![],
        arguments: vec![],
    };

    let expected = Prog {
        statements: vec![
            constraint,
            Statement::constraint(
                QuadComb::from_linear_combinations(
                    LinComb::summand(3, FlatVariable::new(42)),
                    LinComb::summand(3, FlatVariable::new(3)),
                ),
                LinComb::zero(),
            ),
        ],
        returns: vec![],
        arguments: vec![],
    };

    assert_eq!(DuplicateOptimizer::optimize(p), expected);
}

fn c1() -> Statement {
    Statement::constraint(
        QuadComb::from_linear_combinations(
            LinComb::summand(1, FlatVariable::new(0)),
            LinComb::summand(1, FlatVariable::new(0)),
        ),
        LinComb::summand(1, FlatVariable::new(0)),
    )
}

fn c2() -> Statement {
    Statement::constraint(
        QuadComb::from_linear_combinations(
            LinComb::summand(2, FlatVariable::new(1)),
            LinComb::summand(1, FlatVariable::new(0)),
        ),
        LinComb::one(),
    )
}

fn program(statements: Vec<Statement>) -> Prog {
    Prog {
        statements,
        returns: vec![FlatVariable::public(0)],
        arguments: vec![],
    }
}

#[test]
fn first_occurrences_stay_in_order() {
    let p = program(vec![c1(), c2(), c1(), c1(), c2()]);
    assert_eq!(DuplicateOptimizer::optimize(p), program(vec![c1(), c2()]));
}

#[test]
fn repeated_assertion_leaves_one_constraint() {
    // x * x == x, stated twice
    let p = program(vec![c1(), c1()]);
    let optimized = DuplicateOptimizer::optimize(p);
    assert_eq!(optimized.statements.len(), 1);
    assert_eq!(optimized.statements[0], c1());
}

#[test]
fn optimizing_twice_is_optimizing_once() {
    let p = program(vec![c2(), c1(), c2(), c2(), c1(), c1()]);
    let once = DuplicateOptimizer::optimize(p);
    let twice = DuplicateOptimizer::optimize(once.clone());
    assert_eq!(twice, once);
    assert_eq!(once, program(vec![c2(), c1()]));
}

#[test]
fn arguments_and_returns_pass_through() {
    let p = Prog {
        statements: vec![c1(), c1()],
        returns: vec![FlatVariable::public(0), FlatVariable::new(7)],
        arguments: vec![
            FlatParameter::private(FlatVariable::new(0)),
            FlatParameter::public(FlatVariable::new(1)),
        ],
    };
    let optimized = DuplicateOptimizer::optimize(p.clone());
    assert_eq!(optimized.arguments, p.arguments);
    assert_eq!(optimized.returns, p.returns);
}

#[test]
fn terms_in_another_order_are_the_same_constraint() {
    let x = FlatVariable::new(0);
    let y = FlatVariable::new(1);
    let z = FlatVariable::new(2);
    let two = FieldElement::from_u64(2);
    let five = FieldElement::from_u64(5);
    let sum_a = LinComb(vec![(x, two), (y, five), (FlatVariable::one(), two)]);
    let sum_b = LinComb(vec![(FlatVariable::one(), two), (y, five), (x, two)]);
    let other_a = LinComb(vec![(z, five), (x, two)]);
    let other_b = LinComb(vec![(x, two), (z, five)]);
    let first = Statement::constraint(
        QuadComb::from_linear_combinations(sum_a.clone(), other_a.clone()),
        LinComb(vec![(y, two), (x, five)]),
    );
    // the same terms in other orders, and the operands of the product swapped
    let second = Statement::constraint(
        QuadComb::from_linear_combinations(other_b, sum_b),
        LinComb(vec![(x, five), (y, two)]),
    );
    let optimized = DuplicateOptimizer::optimize(program(vec![first, second]));
    assert_eq!(optimized.statements.len(), 1);
    // terms by increasing variable, the greater operand on the left
    let expected = Statement::constraint(
        QuadComb::from_linear_combinations(
            LinComb(vec![(x, two), (z, five)]),
            LinComb(vec![(FlatVariable::one(), two), (x, two), (y, five)]),
        ),
        LinComb(vec![(x, five), (y, two)]),
    );
    assert_eq!(optimized.statements[0], expected);
}

#[test]
fn different_coefficients_are_different_constraints() {
    let a = Statement::constraint(
        QuadComb::from_linear_combinations(
            LinComb::summand(2, FlatVariable::new(1)),
            LinComb::one(),
        ),
        LinComb::zero(),
    );
    let b = Statement::constraint(
        QuadComb::from_linear_combinations(
            LinComb::summand(3, FlatVariable::new(1)),
            LinComb::one(),
        ),
        LinComb::zero(),
    );
    let optimized = DuplicateOptimizer::optimize(program(vec![a.clone(), b.clone(), a.clone()]));
    assert_eq!(optimized.statements, vec![a, b]);
}

#[test]
fn directives_are_deduplicated_too() {
    let directive = |bits: usize| {
        Statement::Directive(Directive {
            inputs: vec![QuadComb::from_linear_combinations(
                LinComb::summand(1, FlatVariable::new(0)),
                LinComb::one(),
            )],
            outputs: vec![FlatVariable::new(1), FlatVariable::new(2)],
            solver: Solver::Bits(bits),
        })
    };
    let optimized = DuplicateOptimizer::optimize(program(vec![
        directive(2),
        directive(2),
        directive(3),
        c1(),
        directive(2),
    ]));
    assert_eq!(optimized.statements, vec![directive(2), directive(3), c1()]);
}

#[test]
fn the_optimizer_remembers_across_calls() {
    let mut optimizer = DuplicateOptimizer::new();
    assert_eq!(optimizer.fold_statement(c1()), vec![c1()]);
    assert_eq!(optimizer.fold_statement(c2()), vec![c2()]);
    assert_eq!(optimizer.fold_statement(c1()), vec![]);
    let rest = optimizer.fold_module(program(vec![c2(), c1()]));
    assert_eq!(rest.statements, vec![]);
}

#[test]
fn hash_and_encoding_follow_the_content() {
    let empty = Statement::constraint(
        QuadComb::from_linear_combinations(LinComb::zero(), LinComb::zero()),
        LinComb::zero(),
    );
    // a tag, then three empty linear combinations, each as its length
    assert_eq!(encode(&empty), vec![0u8; 25]);
    let one_term = Statement::constraint(
        QuadComb::from_linear_combinations(LinComb::zero(), LinComb::zero()),
        LinComb::summand(3, FlatVariable::new(0)),
    );
    let bytes = encode(&one_term);
    assert_eq!(bytes.len(), 25 + 16 + 32);
    assert_eq!(bytes[17], 1); // the length of the last linear combination
    assert_eq!(bytes[25], 1); // the index of the variable
    assert_eq!(bytes[41], 3); // the coefficient
    assert_eq!(hash(&c1()), hash(&c1()));
    assert_eq!(hash(&c1().clone()), hash(&c1()));
}

#[test]
fn canonical_forms() {
    let x = FlatVariable::new(0);
    let y = FlatVariable::new(1);
    let one = FieldElement::one();
    let two = FieldElement::from_u64(2);
    let canonicalizer = Canonicalizer;
    let sorted = canonicalizer.fold_linear_combination(LinComb(vec![
        (y, one),
        (x, two),
        (FlatVariable::public(0), one),
        (x, one),
    ]));
    assert_eq!(
        sorted,
        LinComb(vec![(FlatVariable::public(0), one), (x, one), (x, two), (y, one)])
    );
    assert!(lin_comb_less_eq(&LinComb::zero(), &LinComb::one()));
    assert!(lin_comb_less_eq(&LinComb::summand(1, x), &LinComb::summand(1, y)));
    assert!(!lin_comb_less_eq(&LinComb::summand(2, x), &LinComb::summand(1, x)));
    let statements = canonicalizer.fold_statement(c2());
    assert_eq!(statements.len(), 1);
}
