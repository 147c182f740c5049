//! The removal of assignments to elements of arrays: each becomes an
//! assignment of a whole array to the variable.

use crate::typed_absy::abi::{get_type, type_of};
use crate::typed_absy::operators::{BinaryOp, binary_value};
use crate::typed_absy::types::{Type, Value, Variable};
use crate::typed_absy::{
    AssigneeView, ExpressionView, FunctionView, ProgramView, StatementView, TypedAssignee,
    base_variable,
    TypedExpression, TypedFunction, TypedProgram, TypedStatement, clone_expressions,
    clone_parameters, expressions_view, statements_view,
};
use vstd::prelude::*;

verus! {

/// The value of a target, as an expression.
pub open spec fn assignee_expression(a: AssigneeView) -> ExpressionView
    decreases a,
{
    match a {
        AssigneeView::Identifier(v) => ExpressionView::Identifier(v),
        AssigneeView::Select(inner, index) => ExpressionView::Select(
            Box::new(assignee_expression(*inner)),
            index,
        ),
    }
}

/// The literal index `j`.
pub open spec fn position(j: u32) -> ExpressionView {
    ExpressionView::Value(Value::Uint(32, j as u64))
}

/// The element at position `j` of an array after `value` was written at
/// `index`: `value` where the index is `j`, the element of before
/// otherwise.
pub open spec fn blended_element(
    array: ExpressionView,
    index: ExpressionView,
    value: ExpressionView,
    j: u32,
) -> ExpressionView {
    ExpressionView::IfElse(
        Box::new(ExpressionView::Binary(BinaryOp::Eq, Box::new(index), Box::new(position(j)))),
        Box::new(value),
        Box::new(ExpressionView::Select(Box::new(array), Box::new(position(j)))),
        false,
    )
}

/// The first `n` elements of an array after `value` was written at `index`.
pub open spec fn blended_elements(
    array: ExpressionView,
    index: ExpressionView,
    value: ExpressionView,
    n: u32,
) -> Seq<ExpressionView> {
    Seq::new(n as nat, |j: int| blended_element(array, index, value, j as u32))
}

/// The variable that an assignment to `a` changes, and the value that the
/// variable holds after `value` was assigned to `a`.
pub open spec fn written(a: AssigneeView, value: ExpressionView) -> (Variable, ExpressionView)
    decreases a,
{
    match a {
        AssigneeView::Identifier(v) => (v, value),
        AssigneeView::Select(inner, index) => {
            let array = assignee_expression(*inner);
            match type_of(array) {
                Type::Array(element, n) => written(
                    *inner,
                    ExpressionView::Array(*element, blended_elements(array, *index, value, n)),
                ),
                _ => written(*inner, value),
            }
        },
    }
}

/// The statement with its assignment to an element of an array, if it is
/// one, replaced by an assignment to the variable.
pub open spec fn remove_writes_statement(s: StatementView) -> StatementView
    decreases s,
{
    match s {
        StatementView::Definition(a, e) => {
            let (v, value) = written(a, e);
            StatementView::Definition(AssigneeView::Identifier(v), value)
        },
        StatementView::Assertion(_) => s,
        StatementView::For(v, from, to, body) => StatementView::For(
            v,
            from,
            to,
            remove_writes_statements(body),
        ),
    }
}

/// The statements of `ss`, each without assignments to elements.
pub open spec fn remove_writes_statements(ss: Seq<StatementView>) -> Seq<StatementView>
    decreases ss,
{
    if ss.len() == 0 {
        Seq::empty()
    } else {
        remove_writes_statements(ss.drop_last()).push(remove_writes_statement(ss.last()))
    }
}

/// The function without assignments to elements.
pub open spec fn remove_writes_function(f: FunctionView) -> FunctionView {
    FunctionView {
        arguments: f.arguments,
        statements: remove_writes_statements(f.statements),
        returns: f.returns,
    }
}

/// The program without assignments to elements.
pub open spec fn remove_writes(p: ProgramView) -> ProgramView {
    ProgramView {
        functions: p.functions.map_values(|f: FunctionView| remove_writes_function(f)),
        main: p.main,
        constants: p.constants,
    }
}

/// Whether a statement assigns to variables alone, and each statement of
/// its body if it is a loop.
pub open spec fn assigns_variables(s: StatementView) -> bool
    decreases s,
{
    match s {
        StatementView::Definition(a, _) => a is Identifier,
        StatementView::Assertion(_) => true,
        StatementView::For(_, _, _, body) => forall|i: int|
            0 <= i < body.len() ==> assigns_variables(#[trigger] body[i]),
    }
}

/// After the removal, every assignment is to a variable.
pub proof fn lemma_remove_writes_statement(s: StatementView)
    ensures
        assigns_variables(remove_writes_statement(s)),
    decreases s,
{
    match s {
        StatementView::For(_, _, _, body) => {
            lemma_remove_writes_statements(body);
        },
        _ => {},
    }
}

/// After the removal, every assignment is to a variable.
pub proof fn lemma_remove_writes_statements(ss: Seq<StatementView>)
    ensures
        remove_writes_statements(ss).len() == ss.len(),
        forall|i: int|
            0 <= i < ss.len() ==> assigns_variables(#[trigger] remove_writes_statements(ss)[i]),
    decreases ss,
{
    if ss.len() > 0 {
        lemma_remove_writes_statements(ss.drop_last());
        lemma_remove_writes_statement(ss.last());
    }
}

/// What an expression stands for: a scalar, or an array of what its elements
/// stand for.
pub enum Data {
    Scalar(Value),
    Array(Seq<Data>),
}

/// What an expression without calls and named constants stands for, given
/// what its variables stand for. An array stands for something where each
/// of its elements does, a selection where the index is within the array.
pub open spec fn data_of(state: Map<u128, Data>, e: ExpressionView) -> Option<Data>
    decreases e, 0nat,
{
    match e {
        ExpressionView::Value(v) => Some(Data::Scalar(v)),
        ExpressionView::Identifier(v) => if state.contains_key(v.key()) {
            Some(state[v.key()])
        } else {
            None
        },
        ExpressionView::Not(a) => match data_of(state, *a) {
            Some(Data::Scalar(Value::Boolean(x))) => Some(Data::Scalar(Value::Boolean(!x))),
            _ => None,
        },
        ExpressionView::Binary(op, a, b) => match (data_of(state, *a), data_of(state, *b)) {
            (Some(Data::Scalar(x)), Some(Data::Scalar(y))) => match binary_value(op, x, y) {
                Some(v) => Some(Data::Scalar(v)),
                None => None,
            },
            _ => None,
        },
        ExpressionView::IfElse(c, a, b, _) => match data_of(state, *c) {
            Some(Data::Scalar(Value::Boolean(x))) => if x {
                data_of(state, *a)
            } else {
                data_of(state, *b)
            },
            _ => None,
        },
        ExpressionView::Array(_, elements) => match list_data(state, elements) {
            Some(data) => Some(Data::Array(data)),
            None => None,
        },
        ExpressionView::Select(a, i) => match (data_of(state, *a), data_of(state, *i)) {
            (Some(Data::Array(elements)), Some(Data::Scalar(Value::Uint(_, k)))) => if k
                < elements.len() {
                Some(elements[k as int])
            } else {
                None
            },
            _ => None,
        },
        _ => None,
    }
}

/// What the expressions of a list stand for, where each of them stands for
/// something.
pub open spec fn list_data(state: Map<u128, Data>, elements: Seq<ExpressionView>) -> Option<
    Seq<Data>,
>
    decreases elements, 1nat,
{
    if elements.len() == 0 {
        Some(Seq::empty())
    } else {
        match (list_data(state, elements.drop_last()), data_of(state, elements.last())) {
            (Some(head), Some(last)) => Some(head.push(last)),
            _ => None,
        }
    }
}

/// A list of expressions stands for the data that its expressions stand
/// for, each at its position.
proof fn lemma_list_data(state: Map<u128, Data>, elements: Seq<ExpressionView>, data: Seq<Data>)
    requires
        elements.len() == data.len(),
        forall|j: int|
            0 <= j < elements.len() ==> data_of(state, #[trigger] elements[j]) == Some(data[j]),
    ensures
        list_data(state, elements) == Some(data),
    decreases elements.len(),
{
    if elements.len() > 0 {
        let head = elements.drop_last();
        assert forall|j: int| 0 <= j < head.len() implies data_of(state, #[trigger] head[j])
            == Some(data.drop_last()[j]) by {
            assert(head[j] == elements[j]);
        }
        lemma_list_data(state, head, data.drop_last());
        assert(data_of(state, elements[elements.len() - 1]) == Some(data[data.len() - 1]));
        assert(data.drop_last().push(data.last()) =~= data);
    } else {
        assert(data =~= Seq::<Data>::empty());
    }
}

/// What the variable of a target stands for after `new` was stored in the
/// target: `new` itself for a variable; for an element, what the variable
/// stands for after the array of the element, with `new` at the index, was
/// stored in the target of the array. Nothing is stored where the array has
/// another number of elements than its type says, and where the index is no
/// unsigned integer of 32 bits within the array.
pub open spec fn stored(state: Map<u128, Data>, a: AssigneeView, new: Data) -> Option<Data>
    decreases a,
{
    match a {
        AssigneeView::Identifier(_) => Some(new),
        AssigneeView::Select(inner, index) => match (
            data_of(state, assignee_expression(*inner)),
            data_of(state, *index),
            type_of(assignee_expression(*inner)),
        ) {
            (
                Some(Data::Array(elements)),
                Some(Data::Scalar(Value::Uint(32, k))),
                Type::Array(_, n),
            ) => if k < elements.len() && n == elements.len() {
                stored(state, *inner, Data::Array(elements.update(k as int, new)))
            } else {
                None
            },
            _ => None,
        },
    }
}

/// The removal preserves what is written: where a value can be stored in a
/// target, the value that the removal assigns to the variable of the target
/// stands for what the variable stands for after the store. At each
/// position of an array that was written to, that is the written value
/// where the index is the position, and the element of before otherwise.
pub proof fn lemma_written_value(
    state: Map<u128, Data>,
    a: AssigneeView,
    value: ExpressionView,
    new: Data,
)
    requires
        data_of(state, value) == Some(new),
        stored(state, a, new) is Some,
    ensures
        data_of(state, written(a, value).1) == stored(state, a, new),
        written(a, value).0 == base_variable(a),
    decreases a,
{
    match a {
        AssigneeView::Identifier(_) => {},
        AssigneeView::Select(inner, index) => {
            let array = assignee_expression(*inner);
            let elements = data_of(state, array)->Some_0->Array_0;
            let k = data_of(state, *index)->Some_0->Scalar_0->Uint_1;
            let n = type_of(array)->Array_1;
            let element = *type_of(array)->Array_0;
            let blended = blended_elements(array, *index, value, n);
            let updated = elements.update(k as int, new);
            assert forall|j: int| 0 <= j < blended.len() implies data_of(
                state,
                #[trigger] blended[j],
            ) == Some(updated[j]) by {
                lemma_blended_element(state, array, *index, value, j as u32, new);
            }
            lemma_list_data(state, blended, updated);
            let rewritten = ExpressionView::Array(element, blended);
            lemma_written_value(state, *inner, rewritten, Data::Array(updated));
        },
    }
}

/// What a blended element stands for: the written value at the index, the
/// element of before elsewhere.
proof fn lemma_blended_element(
    state: Map<u128, Data>,
    array: ExpressionView,
    index: ExpressionView,
    value: ExpressionView,
    j: u32,
    new: Data,
)
    requires
        data_of(state, value) == Some(new),
        data_of(state, array) matches Some(Data::Array(elements)) && j < elements.len() && (
        data_of(state, index) matches Some(Data::Scalar(Value::Uint(32, k))) && k
            < elements.len()),
    ensures
        data_of(state, blended_element(array, index, value, j)) == Some(
            data_of(state, array)->Some_0->Array_0.update(
                data_of(state, index)->Some_0->Scalar_0->Uint_1 as int,
                new,
            )[j as int],
        ),
{
    reveal_with_fuel(data_of, 3);
    let k = data_of(state, index)->Some_0->Scalar_0->Uint_1;
    let here = position(j);
    let condition = ExpressionView::Binary(BinaryOp::Eq, Box::new(index), Box::new(here));
    assert(data_of(state, here) == Some(Data::Scalar(Value::Uint(32, j as u64))));
    assert(data_of(state, condition) == Some(Data::Scalar(Value::Boolean(k == j))));
    let old_element = ExpressionView::Select(Box::new(array), Box::new(here));
    assert(data_of(state, old_element) == Some(data_of(state, array)->Some_0->Array_0[j as int]));
}

/// The value of a target, as an expression.
pub fn target_expression(a: &TypedAssignee) -> (r: TypedExpression)
    ensures
        r@ == assignee_expression(a@),
    decreases a,
{
    match a {
        TypedAssignee::Identifier(v) => TypedExpression::Identifier(v.clone()),
        TypedAssignee::Select(inner, index) => TypedExpression::Select(
            Box::new(target_expression(inner)),
            Box::new((**index).clone()),
        ),
    }
}

/// The elements of an array of `n` elements after `value` was written at
/// `index`.
fn blend(array: &TypedExpression, index: &TypedExpression, value: &TypedExpression, n: u32) -> (r:
    Vec<TypedExpression>)
    ensures
        expressions_view(r@) == blended_elements(array@, index@, value@, n),
{
    let mut out: Vec<TypedExpression> = Vec::new();
    let mut j: u32 = 0;
    while j < n
        invariant
            j <= n,
            out@.len() == j,
            forall|k: int|
                0 <= k < j ==> (#[trigger] out@[k])@ == blended_element(
                    array@,
                    index@,
                    value@,
                    k as u32,
                ),
        decreases n - j,
    {
        let here = TypedExpression::Value(Value::Uint(32, j as u64));
        let there = TypedExpression::Value(Value::Uint(32, j as u64));
        assert(here@ == position(j));
        assert(there@ == position(j));
        let index_copy = index.clone();
        let condition = TypedExpression::Binary(BinaryOp::Eq, Box::new(index_copy), Box::new(here));
        assert(condition@ == ExpressionView::Binary(
            BinaryOp::Eq,
            Box::new(index@),
            Box::new(position(j)),
        ));
        let array_copy = array.clone();
        let old_element = TypedExpression::Select(Box::new(array_copy), Box::new(there));
        assert(old_element@ == ExpressionView::Select(Box::new(array@), Box::new(position(j))));
        let value_copy = value.clone();
        let element = TypedExpression::IfElse(
            Box::new(condition),
            Box::new(value_copy),
            Box::new(old_element),
            false,
        );
        assert(element@ == blended_element(array@, index@, value@, j));
        out.push(element);
        j += 1;
    }
    assert(expressions_view(out@) =~= blended_elements(array@, index@, value@, n));
    out
}

/// The variable that an assignment to `a` changes, and the value that the
/// variable holds after `value` was assigned to `a`.
pub fn write(a: &TypedAssignee, value: TypedExpression) -> (r: (Variable, TypedExpression))
    ensures
        (r.0, r.1@) == written(a@, value@),
    decreases a,
{
    match a {
        TypedAssignee::Identifier(v) => (v.clone(), value),
        TypedAssignee::Select(inner, index) => {
            let array = target_expression(inner);
            match get_type(&array) {
                Type::Array(element, n) => {
                    let elements = blend(&array, index, &value, n);
                    write(inner, TypedExpression::Array(*element, elements))
                },
                _ => write(inner, value),
            }
        },
    }
}

/// The removal of assignments to elements of arrays.
#[derive(Debug, Clone, Copy)]
pub struct VariableWriteRemover;

impl VariableWriteRemover {
    /// The statement without its assignment to an element.
    pub fn apply_statement(s: &TypedStatement) -> (r: TypedStatement)
        ensures
            r@ == remove_writes_statement(s@),
        decreases s,
    {
        match s {
            TypedStatement::Definition(a, e) => {
                let (v, value) = write(a, e.clone());
                let target = TypedAssignee::Identifier(v);
                assert(target@ == AssigneeView::Identifier(v));
                TypedStatement::Definition(target, value)
            },
            TypedStatement::Assertion(e) => TypedStatement::Assertion(e.clone()),
            TypedStatement::For(v, from, to, body) => TypedStatement::For(
                v.clone(),
                from.clone(),
                to.clone(),
                VariableWriteRemover::apply_statements(body),
            ),
        }
    }

    /// The statements of `ss`, each without assignments to elements.
    pub fn apply_statements(ss: &Vec<TypedStatement>) -> (r: Vec<TypedStatement>)
        ensures
            statements_view(r@) == remove_writes_statements(statements_view(ss@)),
        decreases ss,
    {
        let ghost input = statements_view(ss@);
        let mut out: Vec<TypedStatement> = Vec::new();
        let mut i: usize = 0;
        assert(input.take(0) =~= Seq::<StatementView>::empty());
        assert(statements_view(out@) =~= Seq::<StatementView>::empty());
        while i < ss.len()
            invariant
                i <= ss.len(),
                input == statements_view(ss@),
                statements_view(out@) == remove_writes_statements(input.take(i as int)),
            decreases ss.len() - i,
        {
            let ghost before = statements_view(out@);
            let x = VariableWriteRemover::apply_statement(&ss[i]);
            out.push(x);
            proof {
                assert(input.take(i + 1).drop_last() =~= input.take(i as int));
                assert(input.take(i + 1).last() == ss@[i as int]@);
                assert(statements_view(out@) =~= before.push(x@));
            }
            i += 1;
        }
        assert(input.take(ss.len() as int) =~= input);
        out
    }

    /// The program without assignments to elements of arrays.
    pub fn apply(p: TypedProgram) -> (r: TypedProgram)
        ensures
            r@ == remove_writes(p@),
    {
        let mut functions: Vec<TypedFunction> = Vec::new();
        let mut i: usize = 0;
        while i < p.functions.len()
            invariant
                i <= p.functions.len(),
                functions@.len() == i,
                forall|j: int|
                    0 <= j < i ==> (#[trigger] functions@[j])@ == remove_writes_function(
                        p.functions@[j]@,
                    ),
            decreases p.functions.len() - i,
        {
            let f = &p.functions[i];
            functions.push(
                TypedFunction {
                    arguments: clone_parameters(&f.arguments),
                    statements: VariableWriteRemover::apply_statements(&f.statements),
                    returns: clone_expressions(&f.returns),
                },
            );
            i += 1;
        }
        let r = TypedProgram { functions, main: p.main, constants: p.constants };
        assert(r@.functions =~= remove_writes(p@).functions);
        r
    }
}

} // verus!
