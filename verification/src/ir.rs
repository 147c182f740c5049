//! The arithmetic-circuit representation: statements over linear and
//! quadratic combinations of indexed variables.

use crate::field::FieldElement;
use vstd::prelude::*;
use vstd::std_specs::cmp::PartialEqSpecImpl;
use vstd::std_specs::convert::FromSpec;

verus! {

/// A variable of the circuit, identified by a signed index: zero is the
/// constant one, positive indices are private variables and negative indices
/// are public outputs.
#[derive(Debug, Clone, Copy, Hash)]
pub struct FlatVariable {
    id: i128,
}

impl View for FlatVariable {
    type V = int;

    closed spec fn view(&self) -> int {
        self.id as int
    }
}

impl FlatVariable {
    /// The private variable with the given number.
    pub fn new(id: usize) -> (r: FlatVariable)
        ensures
            r@ == id + 1,
    {
        FlatVariable { id: id as i128 + 1 }
    }

    /// The variable whose value is always one.
    pub fn one() -> (r: FlatVariable)
        ensures
            r@ == 0,
    {
        FlatVariable { id: 0 }
    }

    /// The public output with the given number.
    pub fn public(id: usize) -> (r: FlatVariable)
        ensures
            r@ == -id - 1,
    {
        FlatVariable { id: -(id as i128) - 1 }
    }

    /// The signed index of the variable.
    pub fn index(&self) -> (r: i128)
        ensures
            r == self@,
    {
        self.id
    }

    /// Whether the variable is the constant one.
    pub fn is_one(&self) -> (r: bool)
        ensures
            r == (self@ == 0),
    {
        self.id == 0
    }

    /// Whether the index of `self` is strictly below that of `other`.
    pub fn less_than(&self, other: &FlatVariable) -> (r: bool)
        ensures
            r == (self@ < other@),
    {
        self.id < other.id
    }

    /// The sixteen bytes that stand for the variable in a content hash.
    pub fn to_bytes(&self) -> (bytes: Vec<u8>)
        ensures
            bytes@ == variable_bytes(self@),
    {
        vstd::bytes::u128_to_le_bytes(self.id as u128)
    }

    /// A variable is determined by its index.
    pub proof fn lemma_view_injective(a: FlatVariable, b: FlatVariable)
        requires
            a@ == b@,
        ensures
            a == b,
    {
    }
}

/// The byte encoding of a variable index: its two's complement in sixteen
/// bytes, little-endian.
pub open spec fn variable_bytes(v: int) -> Seq<u8> {
    vstd::bytes::spec_u128_to_le_bytes(v as u128)
}

impl PartialEq for FlatVariable {
    fn eq(&self, other: &FlatVariable) -> (r: bool) {
        self.id == other.id
    }
}

impl Eq for FlatVariable {}

impl PartialEqSpecImpl for FlatVariable {
    open spec fn obeys_eq_spec() -> bool {
        true
    }

    open spec fn eq_spec(&self, other: &FlatVariable) -> bool {
        self@ == other@
    }
}

/// A term of a linear combination as a pair of variable index and
/// coefficient value.
pub type TermView = (int, nat);

/// A linear combination as the sequence of its terms.
pub type LinCombView = Seq<TermView>;

/// The term that a pair of variable and coefficient stands for.
pub open spec fn term_view(t: (FlatVariable, FieldElement)) -> TermView {
    (t.0@, t.1@)
}

/// The sequence of terms that a list of pairs stands for.
pub open spec fn terms_view(v: Seq<(FlatVariable, FieldElement)>) -> LinCombView {
    v.map_values(|t: (FlatVariable, FieldElement)| term_view(t))
}

/// A weighted sum of variables, as the list of its terms in the order in
/// which they were written.
#[derive(Debug)]
pub struct LinComb(pub Vec<(FlatVariable, FieldElement)>);

impl View for LinComb {
    type V = LinCombView;

    open spec fn view(&self) -> LinCombView {
        terms_view(self.0@)
    }
}

impl LinComb {
    /// The empty sum.
    pub fn zero() -> (r: LinComb)
        ensures
            r@ == Seq::<TermView>::empty(),
    {
        LinComb(Vec::new())
    }

    /// The constant one.
    pub fn one() -> (r: LinComb)
        ensures
            r@ == seq![(0int, 1nat)],
    {
        LinComb::term(FieldElement::one(), FlatVariable::one())
    }

    /// A single variable multiplied by a constant: a field element, or an
    /// integer that stands for one.
    pub fn summand<U>(mult: U, var: FlatVariable) -> (r: LinComb) where FieldElement: From<U>
        ensures
            <FieldElement as FromSpec<U>>::obeys_from_spec() ==> r@ == seq![
                (var@, <FieldElement as FromSpec<U>>::from_spec(mult)@),
            ],
    {
        LinComb::term(FieldElement::from(mult), var)
    }

    /// A single variable multiplied by a field element.
    pub fn term(coefficient: FieldElement, var: FlatVariable) -> (r: LinComb)
        ensures
            r@ == seq![(var@, coefficient@)],
    {
        let ghost c = coefficient@;
        let mut terms: Vec<(FlatVariable, FieldElement)> = Vec::new();
        terms.push((var, coefficient));
        let r = LinComb(terms);
        assert(r@ =~= seq![(var@, c)]);
        r
    }

    /// Whether the sum has no term.
    pub fn is_zero(&self) -> (r: bool)
        ensures
            r == (self@.len() == 0),
    {
        self.0.len() == 0
    }
}

impl Clone for LinComb {
    fn clone(&self) -> (r: LinComb)
        ensures
            r@ == self@,
    {
        let mut terms: Vec<(FlatVariable, FieldElement)> = Vec::new();
        let mut i: usize = 0;
        while i < self.0.len()
            invariant
                i <= self.0.len(),
                terms@.len() == i,
                forall|j: int| 0 <= j < i ==> terms@[j] == self.0@[j],
            decreases self.0.len() - i,
        {
            let v = self.0[i].0;
            let c = self.0[i].1.clone();
            terms.push((v, c));
            i += 1;
        }
        let r = LinComb(terms);
        assert(r@ =~= self@);
        r
    }
}

impl PartialEq for LinComb {
    fn eq(&self, other: &LinComb) -> (r: bool) {
        if self.0.len() != other.0.len() {
            assert(self@.len() != other@.len());
            return false;
        }
        let mut i: usize = 0;
        while i < self.0.len()
            invariant
                i <= self.0.len(),
                self.0.len() == other.0.len(),
                forall|j: int| 0 <= j < i ==> self@[j] == other@[j],
            decreases self.0.len() - i,
        {
            if !(self.0[i].0 == other.0[i].0 && self.0[i].1 == other.0[i].1) {
                assert(self@[i as int] != other@[i as int]);
                return false;
            }
            i += 1;
        }
        assert(self@ =~= other@);
        true
    }
}

impl Eq for LinComb {}

impl PartialEqSpecImpl for LinComb {
    open spec fn obeys_eq_spec() -> bool {
        true
    }

    open spec fn eq_spec(&self, other: &LinComb) -> bool {
        self@ == other@
    }
}

/// A product of two linear combinations, as the pair of its operands.
pub struct QuadCombView {
    pub left: LinCombView,
    pub right: LinCombView,
}

/// A product of two linear combinations.
#[derive(Debug)]
pub struct QuadComb {
    pub left: LinComb,
    pub right: LinComb,
}

impl View for QuadComb {
    type V = QuadCombView;

    open spec fn view(&self) -> QuadCombView {
        QuadCombView { left: self.left@, right: self.right@ }
    }
}

impl QuadComb {
    /// The product of the two given linear combinations.
    pub fn from_linear_combinations(left: LinComb, right: LinComb) -> (r: QuadComb)
        ensures
            r@ == (QuadCombView { left: left@, right: right@ }),
    {
        QuadComb { left, right }
    }
}

impl Clone for QuadComb {
    fn clone(&self) -> (r: QuadComb)
        ensures
            r@ == self@,
    {
        QuadComb { left: self.left.clone(), right: self.right.clone() }
    }
}

impl PartialEq for QuadComb {
    fn eq(&self, other: &QuadComb) -> (r: bool) {
        self.left == other.left && self.right == other.right
    }
}

impl Eq for QuadComb {}

impl PartialEqSpecImpl for QuadComb {
    open spec fn obeys_eq_spec() -> bool {
        true
    }

    open spec fn eq_spec(&self, other: &QuadComb) -> bool {
        self@ == other@
    }
}

/// The computation by which the prover finds the outputs of a directive.
#[derive(Debug, Clone, Copy, PartialEq, Eq, Structural, Hash)]
pub enum Solver {
    /// Whether the input is zero, and the inverse of the input where it is not.
    ConditionEq,
    /// The given number of low bits of the input, most significant first.
    Bits(usize),
    /// The quotient of two field elements.
    Div,
    /// Quotient and remainder of an integer division.
    EuclideanDiv,
}

/// A directive as the values that its meaning depends on.
pub struct DirectiveView {
    pub inputs: Seq<QuadCombView>,
    pub outputs: Seq<int>,
    pub solver: Solver,
}

/// The sequence of indices of a list of variables.
pub open spec fn variables_view(v: Seq<FlatVariable>) -> Seq<int> {
    v.map_values(|x: FlatVariable| x@)
}

/// The sequence of operand pairs of a list of quadratic combinations.
pub open spec fn quad_combs_view(v: Seq<QuadComb>) -> Seq<QuadCombView> {
    v.map_values(|q: QuadComb| q@)
}

/// A hint that tells the prover how to find the values of some variables. It
/// constrains nothing.
#[derive(Debug)]
pub struct Directive {
    pub inputs: Vec<QuadComb>,
    pub outputs: Vec<FlatVariable>,
    pub solver: Solver,
}

impl View for Directive {
    type V = DirectiveView;

    open spec fn view(&self) -> DirectiveView {
        DirectiveView {
            inputs: quad_combs_view(self.inputs@),
            outputs: variables_view(self.outputs@),
            solver: self.solver,
        }
    }
}

/// A copy of a list of variables.
pub fn clone_variables(v: &Vec<FlatVariable>) -> (r: Vec<FlatVariable>)
    ensures
        r@ == v@,
{
    let mut out: Vec<FlatVariable> = Vec::new();
    let mut i: usize = 0;
    while i < v.len()
        invariant
            i <= v.len(),
            out@ == v@.take(i as int),
        decreases v.len() - i,
    {
        out.push(v[i]);
        assert(v@.take(i + 1) =~= v@.take(i as int).push(v@[i as int]));
        i += 1;
    }
    assert(v@.take(v.len() as int) =~= v@);
    out
}

/// Whether two lists of variables hold the same indices in the same order.
pub fn variables_equal(a: &Vec<FlatVariable>, b: &Vec<FlatVariable>) -> (r: bool)
    ensures
        r == (variables_view(a@) == variables_view(b@)),
{
    if a.len() != b.len() {
        assert(variables_view(a@).len() != variables_view(b@).len());
        return false;
    }
    let mut i: usize = 0;
    while i < a.len()
        invariant
            i <= a.len(),
            a.len() == b.len(),
            forall|j: int| 0 <= j < i ==> variables_view(a@)[j] == variables_view(b@)[j],
        decreases a.len() - i,
    {
        if !(a[i] == b[i]) {
            assert(variables_view(a@)[i as int] != variables_view(b@)[i as int]);
            return false;
        }
        i += 1;
    }
    assert(variables_view(a@) =~= variables_view(b@));
    true
}

impl Clone for Directive {
    fn clone(&self) -> (r: Directive)
        ensures
            r@ == self@,
    {
        let mut inputs: Vec<QuadComb> = Vec::new();
        let mut i: usize = 0;
        while i < self.inputs.len()
            invariant
                i <= self.inputs.len(),
                inputs@.len() == i,
                forall|j: int| 0 <= j < i ==> inputs@[j]@ == self.inputs@[j]@,
            decreases self.inputs.len() - i,
        {
            inputs.push(self.inputs[i].clone());
            i += 1;
        }
        let r = Directive { inputs, outputs: clone_variables(&self.outputs), solver: self.solver };
        assert(r@.inputs =~= self@.inputs);
        r
    }
}

impl PartialEq for Directive {
    fn eq(&self, other: &Directive) -> (r: bool) {
        if self.inputs.len() != other.inputs.len() {
            assert(self@.inputs.len() != other@.inputs.len());
            return false;
        }
        let mut i: usize = 0;
        while i < self.inputs.len()
            invariant
                i <= self.inputs.len(),
                self.inputs.len() == other.inputs.len(),
                forall|j: int| 0 <= j < i ==> self@.inputs[j] == other@.inputs[j],
            decreases self.inputs.len() - i,
        {
            if !(self.inputs[i] == other.inputs[i]) {
                assert(self@.inputs[i as int] != other@.inputs[i as int]);
                return false;
            }
            i += 1;
        }
        assert(self@.inputs =~= other@.inputs);
        variables_equal(&self.outputs, &other.outputs) && self.solver == other.solver
    }
}

impl Eq for Directive {}

impl PartialEqSpecImpl for Directive {
    open spec fn obeys_eq_spec() -> bool {
        true
    }

    open spec fn eq_spec(&self, other: &Directive) -> bool {
        self@ == other@
    }
}

/// A statement as the values that its meaning depends on.
pub enum StatementView {
    Constraint(QuadCombView, LinCombView),
    Directive(DirectiveView),
}

/// A statement of the circuit.
#[derive(Debug)]
pub enum Statement {
    /// The product on the left must equal the sum on the right.
    Constraint(QuadComb, LinComb),
    /// A hint for the prover.
    Directive(Directive),
}

impl View for Statement {
    type V = StatementView;

    open spec fn view(&self) -> StatementView {
        match self {
            Statement::Constraint(quad, lin) => StatementView::Constraint(quad@, lin@),
            Statement::Directive(d) => StatementView::Directive(d@),
        }
    }
}

impl Statement {
    /// The constraint that `quad` equals `lin`.
    pub fn constraint(quad: QuadComb, lin: LinComb) -> (r: Statement)
        ensures
            r@ == StatementView::Constraint(quad@, lin@),
    {
        Statement::Constraint(quad, lin)
    }

    /// The constraint that `lin` equals `var`, written with the constant one
    /// as the second operand of the product.
    pub fn definition(var: FlatVariable, lin: LinComb) -> (r: Statement)
        ensures
            r@ == StatementView::Constraint(
                QuadCombView { left: lin@, right: seq![(0int, 1nat)] },
                seq![(var@, 1nat)],
            ),
    {
        Statement::Constraint(
            QuadComb::from_linear_combinations(lin, LinComb::one()),
            LinComb::term(FieldElement::one(), var),
        )
    }
}

impl Clone for Statement {
    fn clone(&self) -> (r: Statement)
        ensures
            r@ == self@,
    {
        match self {
            Statement::Constraint(quad, lin) => Statement::Constraint(quad.clone(), lin.clone()),
            Statement::Directive(d) => Statement::Directive(d.clone()),
        }
    }
}

impl PartialEq for Statement {
    fn eq(&self, other: &Statement) -> (r: bool) {
        match (self, other) {
            (Statement::Constraint(q1, l1), Statement::Constraint(q2, l2)) => {
                *q1 == *q2 && *l1 == *l2
            },
            (Statement::Directive(d1), Statement::Directive(d2)) => *d1 == *d2,
            _ => false,
        }
    }
}

impl Eq for Statement {}

impl PartialEqSpecImpl for Statement {
    open spec fn obeys_eq_spec() -> bool {
        true
    }

    open spec fn eq_spec(&self, other: &Statement) -> bool {
        self@ == other@
    }
}

/// The sequence of views of a list of statements.
pub open spec fn statements_view(v: Seq<Statement>) -> Seq<StatementView> {
    v.map_values(|s: Statement| s@)
}

/// An argument of the program as its variable index and its visibility.
pub struct FlatParameterView {
    pub id: int,
    pub private: bool,
}

/// An argument of the program: its variable, and whether its value stays
/// hidden from the verifier.
#[derive(Debug, Clone, Copy)]
pub struct FlatParameter {
    pub id: FlatVariable,
    pub private: bool,
}

impl View for FlatParameter {
    type V = FlatParameterView;

    open spec fn view(&self) -> FlatParameterView {
        FlatParameterView { id: self.id@, private: self.private }
    }
}

impl FlatParameter {
    /// An argument that the verifier sees.
    pub fn public(id: FlatVariable) -> (r: FlatParameter)
        ensures
            r@ == (FlatParameterView { id: id@, private: false }),
    {
        FlatParameter { id, private: false }
    }

    /// An argument that only the prover knows.
    pub fn private(id: FlatVariable) -> (r: FlatParameter)
        ensures
            r@ == (FlatParameterView { id: id@, private: true }),
    {
        FlatParameter { id, private: true }
    }
}

impl PartialEq for FlatParameter {
    fn eq(&self, other: &FlatParameter) -> (r: bool) {
        self.id == other.id && self.private == other.private
    }
}

impl Eq for FlatParameter {}

impl PartialEqSpecImpl for FlatParameter {
    open spec fn obeys_eq_spec() -> bool {
        true
    }

    open spec fn eq_spec(&self, other: &FlatParameter) -> bool {
        self@ == other@
    }
}

/// The sequence of views of a list of arguments.
pub open spec fn parameters_view(v: Seq<FlatParameter>) -> Seq<FlatParameterView> {
    v.map_values(|p: FlatParameter| p@)
}

/// A program as the values that its meaning depends on.
pub struct ProgView {
    pub arguments: Seq<FlatParameterView>,
    pub returns: Seq<int>,
    pub statements: Seq<StatementView>,
}

/// A program of the circuit tier: its arguments, the variables it returns and
/// its statements, each in order.
#[derive(Debug)]
pub struct Prog {
    pub statements: Vec<Statement>,
    pub arguments: Vec<FlatParameter>,
    pub returns: Vec<FlatVariable>,
}

impl View for Prog {
    type V = ProgView;

    open spec fn view(&self) -> ProgView {
        ProgView {
            arguments: parameters_view(self.arguments@),
            returns: variables_view(self.returns@),
            statements: statements_view(self.statements@),
        }
    }
}

/// A copy of a list of statements.
pub fn clone_statements(v: &Vec<Statement>) -> (r: Vec<Statement>)
    ensures
        statements_view(r@) == statements_view(v@),
{
    let mut out: Vec<Statement> = Vec::new();
    let mut i: usize = 0;
    while i < v.len()
        invariant
            i <= v.len(),
            out@.len() == i,
            forall|j: int| 0 <= j < i ==> out@[j]@ == v@[j]@,
        decreases v.len() - i,
    {
        out.push(v[i].clone());
        i += 1;
    }
    assert(statements_view(out@) =~= statements_view(v@));
    out
}

/// Whether two lists of statements are equal, statement by statement.
pub fn statements_equal(a: &Vec<Statement>, b: &Vec<Statement>) -> (r: bool)
    ensures
        r == (statements_view(a@) == statements_view(b@)),
{
    if a.len() != b.len() {
        assert(statements_view(a@).len() != statements_view(b@).len());
        return false;
    }
    let mut i: usize = 0;
    while i < a.len()
        invariant
            i <= a.len(),
            a.len() == b.len(),
            forall|j: int| 0 <= j < i ==> statements_view(a@)[j] == statements_view(b@)[j],
        decreases a.len() - i,
    {
        if !(a[i] == b[i]) {
            assert(statements_view(a@)[i as int] != statements_view(b@)[i as int]);
            return false;
        }
        i += 1;
    }
    assert(statements_view(a@) =~= statements_view(b@));
    true
}

/// A copy of a list of arguments.
pub fn clone_parameters(v: &Vec<FlatParameter>) -> (r: Vec<FlatParameter>)
    ensures
        r@ == v@,
{
    let mut out: Vec<FlatParameter> = Vec::new();
    let mut i: usize = 0;
    while i < v.len()
        invariant
            i <= v.len(),
            out@ == v@.take(i as int),
        decreases v.len() - i,
    {
        out.push(v[i]);
        assert(v@.take(i + 1) =~= v@.take(i as int).push(v@[i as int]));
        i += 1;
    }
    assert(v@.take(v.len() as int) =~= v@);
    out
}

/// Whether two lists of arguments are equal, argument by argument.
pub fn parameters_equal(a: &Vec<FlatParameter>, b: &Vec<FlatParameter>) -> (r: bool)
    ensures
        r == (parameters_view(a@) == parameters_view(b@)),
{
    if a.len() != b.len() {
        assert(parameters_view(a@).len() != parameters_view(b@).len());
        return false;
    }
    let mut i: usize = 0;
    while i < a.len()
        invariant
            i <= a.len(),
            a.len() == b.len(),
            forall|j: int| 0 <= j < i ==> parameters_view(a@)[j] == parameters_view(b@)[j],
        decreases a.len() - i,
    {
        if !(a[i] == b[i]) {
            assert(parameters_view(a@)[i as int] != parameters_view(b@)[i as int]);
            return false;
        }
        i += 1;
    }
    assert(parameters_view(a@) =~= parameters_view(b@));
    true
}

impl Clone for Prog {
    fn clone(&self) -> (r: Prog)
        ensures
            r@ == self@,
    {
        Prog {
            statements: clone_statements(&self.statements),
            arguments: clone_parameters(&self.arguments),
            returns: clone_variables(&self.returns),
        }
    }
}

impl PartialEq for Prog {
    fn eq(&self, other: &Prog) -> (r: bool) {
        statements_equal(&self.statements, &other.statements) && parameters_equal(
            &self.arguments,
            &other.arguments,
        ) && variables_equal(&self.returns, &other.returns)
    }
}

impl Eq for Prog {}

impl PartialEqSpecImpl for Prog {
    open spec fn obeys_eq_spec() -> bool {
        true
    }

    open spec fn eq_spec(&self, other: &Prog) -> bool {
        self@ == other@
    }
}

} // verus!
