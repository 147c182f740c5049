//! The types of expressions, and the signature that a program shows to the
//! outside.

use crate::typed_absy::operators::BinaryOp;
use crate::typed_absy::types::Type;
use crate::typed_absy::{
    ExpressionView, FunctionView, Parameter, ProgramView, TypedExpression, TypedProgram,
    expressions_view,
};
use vstd::prelude::*;

verus! {

/// The number of elements of an array of `n` expressions, as its type has
/// it.
pub open spec fn array_size(n: nat) -> u32 {
    if n > u32::MAX {
        u32::MAX
    } else {
        n as u32
    }
}

/// The type of an expression.
pub open spec fn type_of(e: ExpressionView) -> Type
    decreases e,
{
    match e {
        ExpressionView::Value(v) => v.type_of(),
        ExpressionView::Identifier(v) => v.ty,
        ExpressionView::Constant(_, ty) => ty,
        ExpressionView::Not(_) => Type::Boolean,
        ExpressionView::Binary(op, a, _) => match op {
            BinaryOp::And | BinaryOp::Or | BinaryOp::Eq | BinaryOp::Lt => Type::Boolean,
            _ => type_of(*a),
        },
        ExpressionView::IfElse(_, a, _, _) => type_of(*a),
        ExpressionView::Call(_, _, ty) => ty,
        ExpressionView::Array(ty, elements) => Type::Array(
            Box::new(ty),
            array_size(elements.len()),
        ),
        ExpressionView::Select(a, _) => match type_of(*a) {
            Type::Array(inner, _) => *inner,
            other => other,
        },
    }
}

/// The type of `e`.
pub fn get_type(e: &TypedExpression) -> (r: Type)
    ensures
        r == type_of(e@),
    decreases e,
{
    match e {
        TypedExpression::Value(v) => v.get_type(),
        TypedExpression::Identifier(v) => v.ty.clone(),
        TypedExpression::Constant(_, ty) => ty.clone(),
        TypedExpression::Not(_) => Type::Boolean,
        TypedExpression::Binary(op, a, _) => match op {
            BinaryOp::And | BinaryOp::Or | BinaryOp::Eq | BinaryOp::Lt => Type::Boolean,
            _ => get_type(a),
        },
        TypedExpression::IfElse(_, a, _, _) => get_type(a),
        TypedExpression::Call(_, _, ty) => ty.clone(),
        TypedExpression::Array(ty, elements) => {
            let n = elements.len();
            assert(expressions_view(elements@).len() == n);
            let size: u32 = if n > u32::MAX as usize {
                u32::MAX
            } else {
                n as u32
            };
            Type::Array(Box::new(ty.clone()), size)
        },
        TypedExpression::Select(a, _) => match get_type(a) {
            Type::Array(inner, _) => *inner,
            other => other,
        },
    }
}

/// An input of a program: its type, and whether its value stays hidden from
/// the verifier.
#[derive(Debug, Clone, PartialEq, Eq)]
pub struct AbiInput {
    pub private: bool,
    pub ty: Type,
}

/// A signature as the values that its meaning depends on.
pub struct AbiView {
    pub inputs: Seq<AbiInput>,
    pub outputs: Seq<Type>,
}

/// The signature of a program: the types of its inputs and of its outputs,
/// each in order.
#[derive(Debug, Clone, PartialEq, Eq)]
pub struct Abi {
    pub inputs: Vec<AbiInput>,
    pub outputs: Vec<Type>,
}

impl View for Abi {
    type V = AbiView;

    open spec fn view(&self) -> AbiView {
        AbiView { inputs: self.inputs@, outputs: self.outputs@ }
    }
}

/// The signature of a function: the type and the visibility of each of its
/// arguments, and the type of each value that it returns.
pub open spec fn signature(f: FunctionView) -> AbiView {
    AbiView {
        inputs: f.arguments.map_values(
            |a: Parameter| AbiInput { private: a.private, ty: a.variable.ty },
        ),
        outputs: f.returns.map_values(|e: ExpressionView| type_of(e)),
    }
}

/// The signature of a program: that of the function where it starts. A
/// program that does not hold that function has no inputs and no outputs.
pub open spec fn abi_of(p: ProgramView) -> AbiView {
    if p.main < p.functions.len() {
        signature(p.functions[p.main as int])
    } else {
        AbiView { inputs: Seq::empty(), outputs: Seq::empty() }
    }
}

impl TypedProgram {
    /// The signature of the program.
    pub fn abi(&self) -> (r: Abi)
        ensures
            r@ == abi_of(self@),
    {
        let mut inputs: Vec<AbiInput> = Vec::new();
        let mut outputs: Vec<Type> = Vec::new();
        if self.main < self.functions.len() {
            let f = &self.functions[self.main];
            assert(self@.functions[self.main as int] == f@);
            let mut i: usize = 0;
            while i < f.arguments.len()
                invariant
                    i <= f.arguments.len(),
                    inputs@.len() == i,
                    forall|j: int|
                        0 <= j < i ==> inputs@[j] == (AbiInput {
                            private: f.arguments@[j].private,
                            ty: f.arguments@[j].variable.ty,
                        }),
                decreases f.arguments.len() - i,
            {
                inputs.push(
                    AbiInput { private: f.arguments[i].private, ty: f.arguments[i].variable.ty.clone() },
                );
                i += 1;
            }
            let mut k: usize = 0;
            while k < f.returns.len()
                invariant
                    k <= f.returns.len(),
                    outputs@.len() == k,
                    forall|j: int| 0 <= j < k ==> outputs@[j] == type_of(f.returns@[j]@),
                decreases f.returns.len() - k,
            {
                outputs.push(get_type(&f.returns[k]));
                k += 1;
            }
            assert(inputs@ =~= signature(f@).inputs);
            assert(outputs@ =~= signature(f@).outputs);
        }
        Abi { inputs, outputs }
    }
}

} // verus!
