//! The typed tier: programs with functions, loops, conditionals and arrays.

pub mod abi;
pub mod folder;
pub mod operators;
pub mod types;

use crate::typed_absy::operators::BinaryOp;
use crate::typed_absy::types::{Type, Value, Variable};
use vstd::prelude::*;
use vstd::std_specs::cmp::PartialEqSpecImpl;

verus! {

/// A typed expression as the values that its meaning depends on.
pub enum ExpressionView {
    Value(Value),
    Identifier(Variable),
    Constant(usize, Type),
    Not(Box<ExpressionView>),
    Binary(BinaryOp, Box<ExpressionView>, Box<ExpressionView>),
    IfElse(Box<ExpressionView>, Box<ExpressionView>, Box<ExpressionView>, bool),
    Call(usize, Seq<ExpressionView>, Type),
    Array(Type, Seq<ExpressionView>),
    Select(Box<ExpressionView>, Box<ExpressionView>),
}

/// An expression of the typed tier.
#[derive(Debug, PartialEq, Eq)]
pub enum TypedExpression {
    /// A literal scalar.
    Value(Value),
    /// The value of a variable.
    Identifier(Variable),
    /// The value of the named constant with the given number and type.
    Constant(usize, Type),
    /// The negation of a truth value.
    Not(Box<TypedExpression>),
    /// An operator applied to two operands.
    Binary(BinaryOp, Box<TypedExpression>, Box<TypedExpression>),
    /// The second operand where the first holds, else the third. The flag
    /// says whether the branches are isolated: whether what a call inside a
    /// branch asserts is asserted only where the branch is taken.
    IfElse(Box<TypedExpression>, Box<TypedExpression>, Box<TypedExpression>, bool),
    /// A call of the function with the given number, with its arguments and
    /// the type of its result.
    Call(usize, Vec<TypedExpression>, Type),
    /// An array of values of the given type.
    Array(Type, Vec<TypedExpression>),
    /// The element of an array at an index.
    Select(Box<TypedExpression>, Box<TypedExpression>),
}

impl TypedExpression {
    /// The expression as the values that its meaning depends on.
    pub open spec fn to_view(&self) -> ExpressionView
        decreases self,
    {
        match self {
            TypedExpression::Value(v) => ExpressionView::Value(*v),
            TypedExpression::Identifier(v) => ExpressionView::Identifier(*v),
            TypedExpression::Constant(id, ty) => ExpressionView::Constant(*id, *ty),
            TypedExpression::Not(e) => ExpressionView::Not(Box::new(e.to_view())),
            TypedExpression::Binary(op, a, b) => ExpressionView::Binary(
                *op,
                Box::new(a.to_view()),
                Box::new(b.to_view()),
            ),
            TypedExpression::IfElse(c, a, b, isolated) => ExpressionView::IfElse(
                Box::new(c.to_view()),
                Box::new(a.to_view()),
                Box::new(b.to_view()),
                *isolated,
            ),
            TypedExpression::Call(f, args, ty) => ExpressionView::Call(*f, expressions_view(args@), *ty),
            TypedExpression::Array(ty, elements) => ExpressionView::Array(
                *ty,
                expressions_view(elements@),
            ),
            TypedExpression::Select(a, i) => ExpressionView::Select(
                Box::new(a.to_view()),
                Box::new(i.to_view()),
            ),
        }
    }
}

impl View for TypedExpression {
    type V = ExpressionView;

    open spec fn view(&self) -> ExpressionView {
        self.to_view()
    }
}

/// The sequence of views of a list of expressions.
pub open spec fn expressions_view(v: Seq<TypedExpression>) -> Seq<ExpressionView>
    decreases v,
{
    Seq::new(
        v.len(),
        |i: int|
            if 0 <= i < v.len() {
                v[i].to_view()
            } else {
                ExpressionView::Value(Value::Boolean(false))
            },
    )
}

/// A copy of a list of expressions.
pub fn clone_expressions(v: &Vec<TypedExpression>) -> (r: Vec<TypedExpression>)
    ensures
        expressions_view(r@) == expressions_view(v@),
    decreases v,
{
    let mut out: Vec<TypedExpression> = Vec::new();
    let mut i: usize = 0;
    while i < v.len()
        invariant
            i <= v.len(),
            out@.len() == i,
            forall|j: int| 0 <= j < i ==> out@[j]@ == v@[j]@,
        decreases v.len() - i,
    {
        out.push(v[i].clone());
        i += 1;
    }
    assert(expressions_view(out@) =~= expressions_view(v@));
    out
}

impl Clone for TypedExpression {
    fn clone(&self) -> (r: TypedExpression)
        ensures
            r@ == self@,
        decreases self,
    {
        match self {
            TypedExpression::Value(v) => TypedExpression::Value(*v),
            TypedExpression::Identifier(v) => TypedExpression::Identifier(v.clone()),
            TypedExpression::Constant(id, ty) => TypedExpression::Constant(*id, ty.clone()),
            TypedExpression::Not(e) => TypedExpression::Not(Box::new((**e).clone())),
            TypedExpression::Binary(op, a, b) => TypedExpression::Binary(
                *op,
                Box::new((**a).clone()),
                Box::new((**b).clone()),
            ),
            TypedExpression::IfElse(c, a, b, isolated) => TypedExpression::IfElse(
                Box::new((**c).clone()),
                Box::new((**a).clone()),
                Box::new((**b).clone()),
                *isolated,
            ),
            TypedExpression::Call(f, args, ty) => {
                let copies = clone_expressions(args);
                let r = TypedExpression::Call(*f, copies, ty.clone());
                r
            },
            TypedExpression::Array(ty, elements) => {
                let copies = clone_expressions(elements);
                let r = TypedExpression::Array(ty.clone(), copies);
                r
            },
            TypedExpression::Select(a, i) => TypedExpression::Select(
                Box::new((**a).clone()),
                Box::new((**i).clone()),
            ),
        }
    }
}

/// The target of an assignment as the values that its meaning depends on.
pub enum AssigneeView {
    Identifier(Variable),
    Select(Box<AssigneeView>, Box<ExpressionView>),
}

/// The target of an assignment: a variable, or an element of a target that
/// is an array.
#[derive(Debug, PartialEq, Eq)]
pub enum TypedAssignee {
    Identifier(Variable),
    Select(Box<TypedAssignee>, Box<TypedExpression>),
}

impl TypedAssignee {
    /// The target as the values that its meaning depends on.
    pub open spec fn to_view(&self) -> AssigneeView
        decreases self,
    {
        match self {
            TypedAssignee::Identifier(v) => AssigneeView::Identifier(*v),
            TypedAssignee::Select(a, i) => AssigneeView::Select(
                Box::new(a.to_view()),
                Box::new(i@),
            ),
        }
    }
}

impl TypedAssignee {
    /// The variable that the target is, or is a part of.
    pub fn variable(&self) -> (r: &Variable)
        ensures
            *r == base_variable(self@),
        decreases self,
    {
        match self {
            TypedAssignee::Identifier(v) => v,
            TypedAssignee::Select(a, _) => a.variable(),
        }
    }
}

impl Clone for TypedAssignee {
    fn clone(&self) -> (r: TypedAssignee)
        ensures
            r@ == self@,
        decreases self,
    {
        match self {
            TypedAssignee::Identifier(v) => TypedAssignee::Identifier(v.clone()),
            TypedAssignee::Select(a, i) => TypedAssignee::Select(
                Box::new((**a).clone()),
                Box::new((**i).clone()),
            ),
        }
    }
}

/// The variable that a target is, or is a part of.
pub open spec fn base_variable(a: AssigneeView) -> Variable
    decreases a,
{
    match a {
        AssigneeView::Identifier(v) => v,
        AssigneeView::Select(inner, _) => base_variable(*inner),
    }
}

impl View for TypedAssignee {
    type V = AssigneeView;

    open spec fn view(&self) -> AssigneeView {
        self.to_view()
    }
}

/// A typed statement as the values that its meaning depends on.
pub enum StatementView {
    Definition(AssigneeView, ExpressionView),
    Assertion(ExpressionView),
    For(Variable, ExpressionView, ExpressionView, Seq<StatementView>),
}

/// A statement of the typed tier.
#[derive(Debug, PartialEq, Eq)]
pub enum TypedStatement {
    /// The assignment of a value to a target.
    Definition(TypedAssignee, TypedExpression),
    /// The claim that a truth value holds.
    Assertion(TypedExpression),
    /// The statements of the body once for each value of the variable from
    /// the first bound up to, and without, the second.
    For(Variable, TypedExpression, TypedExpression, Vec<TypedStatement>),
}

impl TypedStatement {
    /// The statement as the values that its meaning depends on.
    pub open spec fn to_view(&self) -> StatementView
        decreases self,
    {
        match self {
            TypedStatement::Definition(a, e) => StatementView::Definition(a@, e@),
            TypedStatement::Assertion(e) => StatementView::Assertion(e@),
            TypedStatement::For(v, from, to, body) => StatementView::For(
                *v,
                from@,
                to@,
                statements_view(body@),
            ),
        }
    }
}

/// The sequence of views of a list of statements.
pub open spec fn statements_view(v: Seq<TypedStatement>) -> Seq<StatementView>
    decreases v,
{
    Seq::new(
        v.len(),
        |i: int|
            if 0 <= i < v.len() {
                v[i].to_view()
            } else {
                StatementView::Assertion(ExpressionView::Value(Value::Boolean(true)))
            },
    )
}

/// A copy of a list of statements.
pub fn clone_statements(v: &Vec<TypedStatement>) -> (r: Vec<TypedStatement>)
    ensures
        statements_view(r@) == statements_view(v@),
    decreases v,
{
    let mut out: Vec<TypedStatement> = Vec::new();
    let mut i: usize = 0;
    while i < v.len()
        invariant
            i <= v.len(),
            out@.len() == i,
            forall|j: int| 0 <= j < i ==> out@[j]@ == v@[j]@,
        decreases v.len() - i,
    {
        out.push(v[i].clone());
        i += 1;
    }
    assert(statements_view(out@) =~= statements_view(v@));
    out
}

impl Clone for TypedStatement {
    fn clone(&self) -> (r: TypedStatement)
        ensures
            r@ == self@,
        decreases self,
    {
        match self {
            TypedStatement::Definition(a, e) => TypedStatement::Definition(a.clone(), e.clone()),
            TypedStatement::Assertion(e) => TypedStatement::Assertion(e.clone()),
            TypedStatement::For(v, from, to, body) => TypedStatement::For(
                v.clone(),
                from.clone(),
                to.clone(),
                clone_statements(body),
            ),
        }
    }
}

impl View for TypedStatement {
    type V = StatementView;

    open spec fn view(&self) -> StatementView {
        self.to_view()
    }
}

/// An argument of a function: its variable, and whether its value stays
/// hidden from the verifier.
#[derive(Debug)]
pub struct Parameter {
    pub variable: Variable,
    pub private: bool,
}

impl Parameter {
    /// An argument that the verifier sees.
    pub fn public(variable: Variable) -> (r: Parameter)
        ensures
            r == (Parameter { variable: variable, private: false }),
    {
        Parameter { variable, private: false }
    }

    /// An argument that only the prover knows.
    pub fn private(variable: Variable) -> (r: Parameter)
        ensures
            r == (Parameter { variable: variable, private: true }),
    {
        Parameter { variable, private: true }
    }
}

impl Clone for Parameter {
    fn clone(&self) -> (r: Parameter)
        ensures
            r == *self,
    {
        Parameter { variable: self.variable.clone(), private: self.private }
    }
}

impl PartialEq for Parameter {
    fn eq(&self, other: &Parameter) -> (r: bool) {
        self.variable == other.variable && self.private == other.private
    }
}

impl Eq for Parameter {}

impl PartialEqSpecImpl for Parameter {
    open spec fn obeys_eq_spec() -> bool {
        true
    }

    open spec fn eq_spec(&self, other: &Parameter) -> bool {
        *self == *other
    }
}

/// A copy of a list of arguments.
pub fn clone_parameters(v: &Vec<Parameter>) -> (r: Vec<Parameter>)
    ensures
        r@ == v@,
{
    let mut out: Vec<Parameter> = Vec::new();
    let mut i: usize = 0;
    while i < v.len()
        invariant
            i <= v.len(),
            out@ == v@.take(i as int),
        decreases v.len() - i,
    {
        out.push(v[i].clone());
        assert(v@.take(i + 1) =~= v@.take(i as int).push(v@[i as int]));
        i += 1;
    }
    assert(v@.take(v.len() as int) =~= v@);
    out
}

/// A function as the values that its meaning depends on.
pub struct FunctionView {
    pub arguments: Seq<Parameter>,
    pub statements: Seq<StatementView>,
    pub returns: Seq<ExpressionView>,
}

/// A function: its arguments, its statements, and the values that it
/// returns.
#[derive(Debug, Clone, PartialEq, Eq)]
pub struct TypedFunction {
    pub arguments: Vec<Parameter>,
    pub statements: Vec<TypedStatement>,
    pub returns: Vec<TypedExpression>,
}

impl View for TypedFunction {
    type V = FunctionView;

    open spec fn view(&self) -> FunctionView {
        FunctionView {
            arguments: self.arguments@,
            statements: statements_view(self.statements@),
            returns: expressions_view(self.returns@),
        }
    }
}

/// The sequence of views of a list of functions.
pub open spec fn functions_view(v: Seq<TypedFunction>) -> Seq<FunctionView> {
    v.map_values(|f: TypedFunction| f@)
}

/// A program as the values that its meaning depends on.
pub struct ProgramView {
    pub functions: Seq<FunctionView>,
    pub main: usize,
    pub constants: Seq<ExpressionView>,
}

/// A program of the typed tier: its functions in the order of their
/// declaration, the number of the function where it starts, and the
/// definitions of its named constants.
#[derive(Debug, Clone, PartialEq, Eq)]
pub struct TypedProgram {
    pub functions: Vec<TypedFunction>,
    pub main: usize,
    pub constants: Vec<TypedExpression>,
}

impl View for TypedProgram {
    type V = ProgramView;

    open spec fn view(&self) -> ProgramView {
        ProgramView {
            functions: functions_view(self.functions@),
            main: self.main,
            constants: expressions_view(self.constants@),
        }
    }
}

} // verus!
