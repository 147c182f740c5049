//! The lowering of arrays to scalars: every value of the typed tier becomes
//! the sequence of the scalars that it is made of, in the order of its
//! elements.

use crate::typed_absy::abi::{get_type, type_of};
use crate::typed_absy::operators::BinaryOp;
use crate::typed_absy::types::{Type, Value, Variable};
use crate::typed_absy::{
    ExpressionView, FunctionView, Parameter, ProgramView, StatementView, TypedExpression,
    TypedFunction, TypedProgram, TypedStatement, base_variable, expressions_view, statements_view,
};
use crate::zir::{
    ZirExpression, ZirParameter, ZirProgram, ZirProgramView, ZirStatement, ZirType, ZirVariable,
    default_of, default_value, scalar_of, scalar_type,
};
use vstd::prelude::*;

verus! {

/// The scalar at position `k` of a flattened value, or the default of its
/// type where the value has no such position.
pub open spec fn leaf(flat: Seq<ZirExpression>, k: int, ty: ZirType) -> ZirExpression {
    if 0 <= k < flat.len() {
        flat[k]
    } else {
        ZirExpression::Value(default_value(ty))
    }
}

/// The scalar variable at position `k` of the variable `v`.
pub open spec fn variable_leaf(v: Variable, k: u32) -> ZirVariable {
    ZirVariable { id: v.id, version: v.version, leaf: k, ty: scalar_of(v.ty) }
}

/// The scalars of a variable, in order.
pub open spec fn variable_leaves(v: Variable) -> Seq<ZirExpression> {
    Seq::new(v.ty.leaf_count(), |k: int| ZirExpression::Identifier(variable_leaf(v, k as u32)))
}

/// As many defaults as a value of type `ty` has scalars.
pub open spec fn defaults(ty: Type) -> Seq<ZirExpression> {
    Seq::new(ty.leaf_count(), |k: int| ZirExpression::Value(default_value(scalar_of(ty))))
}

/// Whether the result of an operator on unsigned integers can leave the
/// range of its type.
pub open spec fn wraps(op: BinaryOp) -> bool {
    op == BinaryOp::Add || op == BinaryOp::Sub || op == BinaryOp::Mul || op == BinaryOp::LeftShift
}

/// An operator applied to two scalars whose type in the typed tier is `ty`:
/// brought back into the range of the type where that is an unsigned
/// integer and the operator can leave the range.
pub open spec fn scalar_operation(op: BinaryOp, ty: Type, x: ZirExpression, y: ZirExpression) -> ZirExpression {
    let raw = ZirExpression::Binary(op, Box::new(x), Box::new(y));
    match ty {
        Type::Uint(bits) => if wraps(op) {
            ZirExpression::Reduce(bits, Box::new(raw))
        } else {
            raw
        },
        _ => raw,
    }
}

/// Whether the first `n` scalars of two flattened values are equal, each to
/// its counterpart.
pub open spec fn all_equal(
    fa: Seq<ZirExpression>,
    fb: Seq<ZirExpression>,
    ty: ZirType,
    n: nat,
) -> ZirExpression
    decreases n,
{
    if n == 0 {
        ZirExpression::Value(Value::Boolean(true))
    } else {
        let last = ZirExpression::Binary(
            BinaryOp::Eq,
            Box::new(leaf(fa, n - 1, ty)),
            Box::new(leaf(fb, n - 1, ty)),
        );
        if n == 1 {
            last
        } else {
            ZirExpression::Binary(
                BinaryOp::And,
                Box::new(all_equal(fa, fb, ty, (n - 1) as nat)),
                Box::new(last),
            )
        }
    }
}

/// The literal index `j`.
pub open spec fn position(j: u32) -> ZirExpression {
    ZirExpression::Value(Value::Uint(32, j as u64))
}

/// The scalar at position `k` of the element that `index` picks among the
/// elements `j` and after of a flattened array of `n` elements of `m`
/// scalars each: the scalar of element `j` where the index is `j`, and what
/// is chosen among the elements after `j` otherwise.
pub open spec fn chosen(
    fa: Seq<ZirExpression>,
    index: ZirExpression,
    ty: ZirType,
    m: u32,
    k: u32,
    n: u32,
    j: u32,
) -> ZirExpression
    decreases n - j,
{
    if j >= n {
        ZirExpression::Value(default_value(ty))
    } else if j == n - 1 {
        leaf(fa, j * m + k, ty)
    } else {
        ZirExpression::IfElse(
            Box::new(ZirExpression::Binary(BinaryOp::Eq, Box::new(index), Box::new(position(j)))),
            Box::new(leaf(fa, j * m + k, ty)),
            Box::new(chosen(fa, index, ty, m, k, n, (j + 1) as u32)),
        )
    }
}

/// The scalars that an expression is made of.
pub open spec fn flatten_expression(e: ExpressionView) -> Seq<ZirExpression>
    decreases e,
{
    match e {
        ExpressionView::Value(v) => seq![ZirExpression::Value(v)],
        ExpressionView::Identifier(v) => variable_leaves(v),
        ExpressionView::Constant(_, ty) => defaults(ty),
        ExpressionView::Call(_, _, ty) => defaults(ty),
        ExpressionView::Not(a) => seq![
            ZirExpression::Not(Box::new(leaf(flatten_expression(*a), 0, ZirType::Boolean))),
        ],
        ExpressionView::Binary(op, a, b) => {
            let fa = flatten_expression(*a);
            let fb = flatten_expression(*b);
            let ty = type_of(*a);
            if op == BinaryOp::Eq {
                seq![all_equal(fa, fb, scalar_of(ty), fa.len())]
            } else {
                seq![
                    scalar_operation(
                        op,
                        ty,
                        leaf(fa, 0, scalar_of(ty)),
                        leaf(fb, 0, scalar_of(ty)),
                    ),
                ]
            }
        },
        ExpressionView::IfElse(c, a, b, _) => {
            let fc = flatten_expression(*c);
            let fa = flatten_expression(*a);
            let fb = flatten_expression(*b);
            let ty = scalar_of(type_of(*a));
            Seq::new(
                fa.len(),
                |k: int|
                    ZirExpression::IfElse(
                        Box::new(leaf(fc, 0, ZirType::Boolean)),
                        Box::new(leaf(fa, k, ty)),
                        Box::new(leaf(fb, k, ty)),
                    ),
            )
        },
        ExpressionView::Array(_, elements) => flatten_expressions(elements),
        ExpressionView::Select(a, i) => {
            let fa = flatten_expression(*a);
            match type_of(*a) {
                Type::Array(inner, n) => {
                    let m = inner.leaf_count() as u32;
                    let ty = scalar_of(*inner);
                    match *i {
                        ExpressionView::Value(Value::Uint(_, j)) => Seq::new(
                            m as nat,
                            |k: int| leaf(fa, j * m + k, ty),
                        ),
                        _ => {
                            let index = leaf(flatten_expression(*i), 0, ZirType::Uint(32));
                            Seq::new(m as nat, |k: int| chosen(fa, index, ty, m, k as u32, n, 0))
                        },
                    }
                },
                _ => fa,
            }
        },
    }
}

/// The scalars that the expressions of a list are made of, one expression
/// after the other.
pub open spec fn flatten_expressions(es: Seq<ExpressionView>) -> Seq<ZirExpression>
    decreases es,
{
    if es.len() == 0 {
        Seq::empty()
    } else {
        flatten_expressions(es.drop_last()) + flatten_expression(es.last())
    }
}

/// The statements that stand for a statement of the typed tier: one
/// assignment for each scalar of the variable that an assignment changes,
/// one assertion for an assertion, and nothing for a loop.
pub open spec fn flatten_statement(s: StatementView) -> Seq<ZirStatement> {
    match s {
        StatementView::Definition(a, e) => {
            let v = base_variable(a);
            let fe = flatten_expression(e);
            Seq::new(
                v.ty.leaf_count(),
                |k: int|
                    ZirStatement::Definition(variable_leaf(v, k as u32), leaf(fe, k, scalar_of(v.ty))),
            )
        },
        StatementView::Assertion(e) => seq![
            ZirStatement::Assertion(leaf(flatten_expression(e), 0, ZirType::Boolean)),
        ],
        StatementView::For(_, _, _, _) => Seq::empty(),
    }
}

/// The statements that stand for the statements of a list.
pub open spec fn flatten_statements(ss: Seq<StatementView>) -> Seq<ZirStatement>
    decreases ss.len(),
{
    if ss.len() == 0 {
        Seq::empty()
    } else {
        flatten_statements(ss.drop_last()) + flatten_statement(ss.last())
    }
}

/// The scalar arguments that stand for an argument.
pub open spec fn flatten_parameter(p: Parameter) -> Seq<ZirParameter> {
    Seq::new(
        p.variable.ty.leaf_count(),
        |k: int| ZirParameter { variable: variable_leaf(p.variable, k as u32), private: p.private },
    )
}

/// The scalar arguments that stand for the arguments of a list.
pub open spec fn flatten_parameters(ps: Seq<Parameter>) -> Seq<ZirParameter>
    decreases ps.len(),
{
    if ps.len() == 0 {
        Seq::empty()
    } else {
        flatten_parameters(ps.drop_last()) + flatten_parameter(ps.last())
    }
}

/// The flat program that stands for a function.
pub open spec fn flatten_function(f: FunctionView) -> ZirProgramView {
    ZirProgramView {
        arguments: flatten_parameters(f.arguments),
        statements: flatten_statements(f.statements),
        returns: flatten_expressions(f.returns),
    }
}

/// The flat program that stands for a program: that of the function where
/// it starts. A program that does not hold that function gives the empty
/// program.
pub open spec fn flatten(p: ProgramView) -> ZirProgramView {
    if p.main < p.functions.len() {
        flatten_function(p.functions[p.main as int])
    } else {
        ZirProgramView { arguments: Seq::empty(), statements: Seq::empty(), returns: Seq::empty() }
    }
}

/// The order of flattening depends on the type alone: two variables of one
/// type are made of as many scalars, of the same types at the same
/// positions.
pub proof fn lemma_flattening_by_type(v: Variable, w: Variable)
    requires
        v.ty == w.ty,
    ensures
        variable_leaves(v).len() == variable_leaves(w).len(),
        variable_leaves(v).len() == v.ty.leaf_count(),
        forall|k: int|
            0 <= k < variable_leaves(v).len() ==> (#[trigger] variable_leaves(
                v,
            )[k])->Identifier_0.ty == variable_leaves(w)[k]->Identifier_0.ty,
{
}

/// The scalar at position `k` of a flattened value, or the default of its
/// type.
fn leaf_at(flat: &Vec<ZirExpression>, k: u128, ty: ZirType) -> (r: ZirExpression)
    ensures
        r == leaf(flat@, k as int, ty),
{
    if k < flat.len() as u128 {
        flat[k as usize].clone()
    } else {
        ZirExpression::Value(default_of(ty))
    }
}

/// The scalars of a variable, in order.
fn leaves_of(v: &Variable) -> (r: Vec<ZirExpression>)
    ensures
        r@ == variable_leaves(*v),
{
    let count = v.ty.count_leaves();
    let ty = scalar_type(&v.ty);
    let mut out: Vec<ZirExpression> = Vec::new();
    let mut k: u32 = 0;
    while k < count
        invariant
            k <= count,
            count == v.ty.leaf_count(),
            ty == scalar_of(v.ty),
            out@.len() == k,
            forall|i: int|
                0 <= i < k ==> out@[i] == ZirExpression::Identifier(variable_leaf(*v, i as u32)),
        decreases count - k,
    {
        out.push(
            ZirExpression::Identifier(
                ZirVariable { id: v.id, version: v.version, leaf: k, ty: ty },
            ),
        );
        k += 1;
    }
    assert(out@ =~= variable_leaves(*v));
    out
}

/// As many defaults as a value of type `ty` has scalars.
fn defaults_of(ty: &Type) -> (r: Vec<ZirExpression>)
    ensures
        r@ == defaults(*ty),
{
    let count = ty.count_leaves();
    let scalar = scalar_type(ty);
    let mut out: Vec<ZirExpression> = Vec::new();
    let mut k: u32 = 0;
    while k < count
        invariant
            k <= count,
            count == ty.leaf_count(),
            scalar == scalar_of(*ty),
            out@.len() == k,
            forall|i: int| 0 <= i < k ==> out@[i] == ZirExpression::Value(default_value(scalar)),
        decreases count - k,
    {
        out.push(ZirExpression::Value(default_of(scalar)));
        k += 1;
    }
    assert(out@ =~= defaults(*ty));
    out
}

/// An operator applied to two scalars whose type in the typed tier is
/// `ty`.
fn operation(op: BinaryOp, ty: &Type, x: ZirExpression, y: ZirExpression) -> (r: ZirExpression)
    ensures
        r == scalar_operation(op, *ty, x, y),
{
    let raw = ZirExpression::Binary(op, Box::new(x), Box::new(y));
    match ty {
        Type::Uint(bits) => {
            if op == BinaryOp::Add || op == BinaryOp::Sub || op == BinaryOp::Mul || op
                == BinaryOp::LeftShift {
                ZirExpression::Reduce(*bits, Box::new(raw))
            } else {
                raw
            }
        },
        _ => raw,
    }
}

/// Whether the scalars of two flattened values are equal, each to its
/// counterpart.
fn equal(fa: &Vec<ZirExpression>, fb: &Vec<ZirExpression>, ty: ZirType) -> (r: ZirExpression)
    ensures
        r == all_equal(fa@, fb@, ty, fa@.len()),
{
    let n = fa.len();
    if n == 0 {
        return ZirExpression::Value(Value::Boolean(true));
    }
    let mut acc = ZirExpression::Binary(
        BinaryOp::Eq,
        Box::new(leaf_at(fa, 0, ty)),
        Box::new(leaf_at(fb, 0, ty)),
    );
    let mut i: usize = 1;
    while i < n
        invariant
            1 <= i <= n,
            n == fa@.len(),
            acc == all_equal(fa@, fb@, ty, i as nat),
        decreases n - i,
    {
        let last = ZirExpression::Binary(
            BinaryOp::Eq,
            Box::new(leaf_at(fa, i as u128, ty)),
            Box::new(leaf_at(fb, i as u128, ty)),
        );
        acc = ZirExpression::Binary(BinaryOp::And, Box::new(acc), Box::new(last));
        i += 1;
    }
    acc
}

/// The position of scalar `k` of element `j` in a flattened array of
/// elements of `m` scalars.
fn position_of(j: u64, m: u32, k: u32) -> (r: u128)
    ensures
        r == j * m + k,
{
    assert((j as u128) * (m as u128) <= 0xffff_ffff_ffff_ffff * 0xffff_ffff) by (nonlinear_arith)
        requires
            j <= 0xffff_ffff_ffff_ffff,
            m <= 0xffff_ffff,
    ;
    (j as u128) * (m as u128) + (k as u128)
}

/// The scalar at position `k` of the element that `index` picks in a
/// flattened array of `n` elements of `m` scalars each.
fn choose_element(
    fa: &Vec<ZirExpression>,
    index: &ZirExpression,
    ty: ZirType,
    m: u32,
    k: u32,
    n: u32,
) -> (r: ZirExpression)
    ensures
        r == chosen(fa@, *index, ty, m, k, n, 0),
{
    if n == 0 {
        return ZirExpression::Value(default_of(ty));
    }
    let mut j: u32 = n - 1;
    let mut acc = leaf_at(fa, position_of(j as u64, m, k), ty);
    while j > 0
        invariant
            j < n,
            acc == chosen(fa@, *index, ty, m, k, n, j),
        decreases j,
    {
        j -= 1;
        let element = leaf_at(fa, position_of(j as u64, m, k), ty);
        let condition = ZirExpression::Binary(
            BinaryOp::Eq,
            Box::new(index.clone()),
            Box::new(ZirExpression::Value(Value::Uint(32, j as u64))),
        );
        acc = ZirExpression::IfElse(Box::new(condition), Box::new(element), Box::new(acc));
    }
    acc
}

/// The lowering of arrays to scalars.
#[derive(Debug, Clone, Copy)]
pub struct Flattener;

impl Flattener {
    /// The scalars that `e` is made of.
    pub fn flatten_expression(e: &TypedExpression) -> (r: Vec<ZirExpression>)
        ensures
            r@ == flatten_expression(e@),
        decreases e,
    {
        match e {
            TypedExpression::Value(v) => {
                let mut out: Vec<ZirExpression> = Vec::new();
                out.push(ZirExpression::Value(*v));
                assert(out@ =~= seq![ZirExpression::Value(*v)]);
                out
            },
            TypedExpression::Identifier(v) => leaves_of(v),
            TypedExpression::Constant(_, ty) => defaults_of(ty),
            TypedExpression::Call(_, _, ty) => defaults_of(ty),
            TypedExpression::Not(a) => {
                let fa = Flattener::flatten_expression(a);
                let x = ZirExpression::Not(Box::new(leaf_at(&fa, 0, ZirType::Boolean)));
                let mut out: Vec<ZirExpression> = Vec::new();
                out.push(x);
                assert(out@ =~= seq![x]);
                out
            },
            TypedExpression::Binary(op, a, b) => {
                let fa = Flattener::flatten_expression(a);
                let fb = Flattener::flatten_expression(b);
                let ty = get_type(a);
                let scalar = scalar_type(&ty);
                let x = if *op == BinaryOp::Eq {
                    equal(&fa, &fb, scalar)
                } else {
                    operation(*op, &ty, leaf_at(&fa, 0, scalar), leaf_at(&fb, 0, scalar))
                };
                let mut out: Vec<ZirExpression> = Vec::new();
                out.push(x);
                assert(out@ =~= seq![x]);
                out
            },
            TypedExpression::IfElse(c, a, b, _) => {
                let fc = Flattener::flatten_expression(c);
                let fa = Flattener::flatten_expression(a);
                let fb = Flattener::flatten_expression(b);
                let ty = scalar_type(&get_type(a));
                let condition = leaf_at(&fc, 0, ZirType::Boolean);
                let mut out: Vec<ZirExpression> = Vec::new();
                let mut k: usize = 0;
                while k < fa.len()
                    invariant
                        k <= fa.len(),
                        out@.len() == k,
                        condition == leaf(fc@, 0, ZirType::Boolean),
                        forall|i: int|
                            0 <= i < k ==> out@[i] == ZirExpression::IfElse(
                                Box::new(condition),
                                Box::new(leaf(fa@, i, ty)),
                                Box::new(leaf(fb@, i, ty)),
                            ),
                    decreases fa.len() - k,
                {
                    out.push(
                        ZirExpression::IfElse(
                            Box::new(condition.clone()),
                            Box::new(leaf_at(&fa, k as u128, ty)),
                            Box::new(leaf_at(&fb, k as u128, ty)),
                        ),
                    );
                    k += 1;
                }
                assert(out@ =~= flatten_expression(e@));
                out
            },
            TypedExpression::Array(_, elements) => Flattener::flatten_expressions(elements),
            TypedExpression::Select(a, i) => {
                let fa = Flattener::flatten_expression(a);
                match get_type(a) {
                    Type::Array(inner, n) => {
                        let m = inner.count_leaves();
                        let ty = scalar_type(&inner);
                        let literal: Option<(u8, u64)> = match &**i {
                            TypedExpression::Value(Value::Uint(w, j)) => Some((*w, *j)),
                            _ => None,
                        };
                        let mut out: Vec<ZirExpression> = Vec::new();
                        match literal {
                            Some((w, j)) => {
                                assert(i@ == ExpressionView::Value(Value::Uint(w, j)));
                                let mut k: u32 = 0;
                                while k < m
                                    invariant
                                        k <= m,
                                        out@.len() == k,
                                        forall|x: int|
                                            0 <= x < k ==> out@[x] == leaf(fa@, j * m + x, ty),
                                    decreases m - k,
                                {
                                    out.push(leaf_at(&fa, position_of(j, m, k), ty));
                                    k += 1;
                                }
                                assert(out@ =~= Seq::new(
                                    m as nat,
                                    |k: int| leaf(fa@, j * m + k, ty),
                                ));
                                assert(out@ =~= flatten_expression(e@));
                            },
                            None => {
                                let fi = Flattener::flatten_expression(i);
                                let index = leaf_at(&fi, 0, ZirType::Uint(32));
                                let mut k: u32 = 0;
                                while k < m
                                    invariant
                                        k <= m,
                                        out@.len() == k,
                                        forall|x: int|
                                            0 <= x < k ==> out@[x] == chosen(
                                                fa@,
                                                index,
                                                ty,
                                                m,
                                                x as u32,
                                                n,
                                                0,
                                            ),
                                    decreases m - k,
                                {
                                    out.push(choose_element(&fa, &index, ty, m, k, n));
                                    k += 1;
                                }
                                assert(out@ =~= flatten_expression(e@));
                            },
                        }
                        out
                    },
                    _ => fa,
                }
            },
        }
    }

    /// The scalars that the expressions of `es` are made of.
    pub fn flatten_expressions(es: &Vec<TypedExpression>) -> (r: Vec<ZirExpression>)
        ensures
            r@ == flatten_expressions(expressions_view(es@)),
        decreases es,
    {
        let ghost input = expressions_view(es@);
        let mut out: Vec<ZirExpression> = Vec::new();
        let mut i: usize = 0;
        assert(input.take(0) =~= Seq::<ExpressionView>::empty());
        while i < es.len()
            invariant
                i <= es.len(),
                input == expressions_view(es@),
                out@ == flatten_expressions(input.take(i as int)),
            decreases es.len() - i,
        {
            let mut next = Flattener::flatten_expression(&es[i]);
            proof {
                assert(input.take(i + 1).drop_last() =~= input.take(i as int));
                assert(input.take(i + 1).last() == es@[i as int]@);
            }
            out.append(&mut next);
            i += 1;
        }
        assert(input.take(es.len() as int) =~= input);
        out
    }

    /// The statements that stand for `s`.
    pub fn flatten_statement(s: &TypedStatement) -> (r: Vec<ZirStatement>)
        ensures
            r@ == flatten_statement(s@),
    {
        let mut out: Vec<ZirStatement> = Vec::new();
        match s {
            TypedStatement::Definition(a, e) => {
                let v = a.variable();
                let fe = Flattener::flatten_expression(e);
                let count = v.ty.count_leaves();
                let ty = scalar_type(&v.ty);
                let mut k: u32 = 0;
                while k < count
                    invariant
                        k <= count,
                        count == v.ty.leaf_count(),
                        ty == scalar_of(v.ty),
                        out@.len() == k,
                        forall|i: int|
                            0 <= i < k ==> out@[i] == ZirStatement::Definition(
                                variable_leaf(*v, i as u32),
                                leaf(fe@, i, ty),
                            ),
                    decreases count - k,
                {
                    out.push(
                        ZirStatement::Definition(
                            ZirVariable { id: v.id, version: v.version, leaf: k, ty: ty },
                            leaf_at(&fe, k as u128, ty),
                        ),
                    );
                    k += 1;
                }
                assert(out@ =~= flatten_statement(s@));
            },
            TypedStatement::Assertion(e) => {
                let fe = Flattener::flatten_expression(e);
                let x = ZirStatement::Assertion(leaf_at(&fe, 0, ZirType::Boolean));
                out.push(x);
                assert(out@ =~= seq![x]);
            },
            TypedStatement::For(_, _, _, _) => {
                assert(out@ =~= Seq::<ZirStatement>::empty());
            },
        }
        out
    }

    /// The scalar arguments that stand for the argument `p`.
    pub fn flatten_parameter(p: &Parameter) -> (r: Vec<ZirParameter>)
        ensures
            r@ == flatten_parameter(*p),
    {
        let count = p.variable.ty.count_leaves();
        let ty = scalar_type(&p.variable.ty);
        let mut out: Vec<ZirParameter> = Vec::new();
        let mut k: u32 = 0;
        while k < count
            invariant
                k <= count,
                count == p.variable.ty.leaf_count(),
                ty == scalar_of(p.variable.ty),
                out@.len() == k,
                forall|x: int|
                    0 <= x < k ==> out@[x] == (ZirParameter {
                        variable: variable_leaf(p.variable, x as u32),
                        private: p.private,
                    }),
            decreases count - k,
        {
            out.push(
                ZirParameter {
                    variable: ZirVariable {
                        id: p.variable.id,
                        version: p.variable.version,
                        leaf: k,
                        ty: ty,
                    },
                    private: p.private,
                },
            );
            k += 1;
        }
        assert(out@ =~= flatten_parameter(*p));
        out
    }

    /// The scalar arguments that stand for the arguments of `ps`.
    pub fn flatten_parameters(ps: &Vec<Parameter>) -> (r: Vec<ZirParameter>)
        ensures
            r@ == flatten_parameters(ps@),
    {
        let mut out: Vec<ZirParameter> = Vec::new();
        let mut i: usize = 0;
        assert(ps@.take(0) =~= Seq::<Parameter>::empty());
        while i < ps.len()
            invariant
                i <= ps.len(),
                out@ == flatten_parameters(ps@.take(i as int)),
            decreases ps.len() - i,
        {
            let mut next = Flattener::flatten_parameter(&ps[i]);
            proof {
                assert(ps@.take(i + 1).drop_last() =~= ps@.take(i as int));
                assert(ps@.take(i + 1).last() == ps@[i as int]);
            }
            out.append(&mut next);
            i += 1;
        }
        assert(ps@.take(ps.len() as int) =~= ps@);
        out
    }

    /// The flat program that stands for `f`.
    pub fn flatten_function(f: &TypedFunction) -> (r: ZirProgram)
        ensures
            r@ == flatten_function(f@),
    {
        let ghost input = statements_view(f.statements@);
        let mut statements: Vec<ZirStatement> = Vec::new();
        let mut i: usize = 0;
        assert(input.take(0) =~= Seq::<StatementView>::empty());
        while i < f.statements.len()
            invariant
                i <= f.statements.len(),
                input == statements_view(f.statements@),
                statements@ == flatten_statements(input.take(i as int)),
            decreases f.statements.len() - i,
        {
            let mut next = Flattener::flatten_statement(&f.statements[i]);
            proof {
                assert(input.take(i + 1).drop_last() =~= input.take(i as int));
                assert(input.take(i + 1).last() == f.statements@[i as int]@);
            }
            statements.append(&mut next);
            i += 1;
        }
        assert(input.take(f.statements.len() as int) =~= input);
        ZirProgram {
            arguments: Flattener::flatten_parameters(&f.arguments),
            statements,
            returns: Flattener::flatten_expressions(&f.returns),
        }
    }

    /// The flat program that stands for `p`.
    pub fn flatten(p: TypedProgram) -> (r: ZirProgram)
        ensures
            r@ == flatten(p@),
    {
        if p.main < p.functions.len() {
            assert(p@.functions[p.main as int] == p.functions@[p.main as int]@);
            Flattener::flatten_function(&p.functions[p.main])
        } else {
            ZirProgram { arguments: Vec::new(), statements: Vec::new(), returns: Vec::new() }
        }
    }
}

} // verus!
