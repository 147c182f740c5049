//! Types, variables and literal values of the typed tier.

use crate::field::FieldElement;
use vstd::prelude::*;
use vstd::std_specs::cmp::PartialEqSpecImpl;

verus! {

/// The largest number of scalars that an array is taken to hold.
pub const MAX_LEAVES: u32 = 0xffff_ffff;

/// The type of a value.
#[derive(Debug)]
pub enum Type {
    /// A truth value.
    Boolean,
    /// An unsigned integer of the given number of bits, at most 64.
    Uint(u8),
    /// An element of the field.
    FieldElement,
    /// An array of the given number of values of one type.
    Array(Box<Type>, u32),
}

impl Type {
    /// The type of the scalars that a value of this type is made of.
    pub open spec fn scalar(self) -> Type
        decreases self,
    {
        match self {
            Type::Array(inner, _) => inner.scalar(),
            _ => self,
        }
    }

    /// The number of scalars that a value of this type is made of, cut at
    /// `MAX_LEAVES`.
    pub open spec fn leaf_count(self) -> nat
        decreases self,
    {
        match self {
            Type::Array(inner, size) => {
                let n = size * inner.leaf_count();
                if n > MAX_LEAVES {
                    MAX_LEAVES as nat
                } else {
                    n as nat
                }
            },
            _ => 1,
        }
    }

    /// The type of the scalars that a value of this type is made of.
    pub fn scalar_type(&self) -> (r: Type)
        ensures
            r == self.scalar(),
        decreases self,
    {
        match self {
            Type::Boolean => Type::Boolean,
            Type::Uint(bits) => Type::Uint(*bits),
            Type::FieldElement => Type::FieldElement,
            Type::Array(inner, _) => inner.scalar_type(),
        }
    }

    /// The number of scalars that a value of this type is made of, cut at
    /// `MAX_LEAVES`.
    pub fn count_leaves(&self) -> (r: u32)
        ensures
            r == self.leaf_count(),
        decreases self,
    {
        match self {
            Type::Array(inner, size) => {
                let m = inner.count_leaves();
                assert((*size as u64) * (m as u64) <= 0xffff_ffff * 0xffff_ffff) by (nonlinear_arith)
                    requires
                        *size <= 0xffff_ffff,
                        m <= 0xffff_ffff,
                ;
                let n: u64 = (*size as u64) * (m as u64);
                assert(n == size * inner.leaf_count()) by (nonlinear_arith)
                    requires
                        n == (*size as u64) * (m as u64),
                        m == inner.leaf_count(),
                ;
                if n > MAX_LEAVES as u64 {
                    MAX_LEAVES
                } else {
                    n as u32
                }
            },
            _ => 1,
        }
    }
}

impl Clone for Type {
    fn clone(&self) -> (r: Type)
        ensures
            r == *self,
        decreases self,
    {
        match self {
            Type::Boolean => Type::Boolean,
            Type::Uint(bits) => Type::Uint(*bits),
            Type::FieldElement => Type::FieldElement,
            Type::Array(inner, size) => Type::Array(Box::new((**inner).clone()), *size),
        }
    }
}

impl PartialEq for Type {
    fn eq(&self, other: &Type) -> (r: bool)
        decreases self,
    {
        match (self, other) {
            (Type::Boolean, Type::Boolean) => true,
            (Type::Uint(a), Type::Uint(b)) => *a == *b,
            (Type::FieldElement, Type::FieldElement) => true,
            (Type::Array(a, n), Type::Array(b, m)) => *n == *m && (**a).eq(&**b),
            _ => false,
        }
    }
}

impl Eq for Type {}

impl PartialEqSpecImpl for Type {
    open spec fn obeys_eq_spec() -> bool {
        true
    }

    open spec fn eq_spec(&self, other: &Type) -> bool {
        *self == *other
    }
}

/// A variable: a name, the number of the inlined call that it belongs to,
/// and its type.
#[derive(Debug)]
pub struct Variable {
    pub id: usize,
    pub version: usize,
    pub ty: Type,
}

impl Variable {
    /// The variable of the given name and type in the function itself.
    pub fn new(id: usize, ty: Type) -> (r: Variable)
        ensures
            r == (Variable { id: id, version: 0, ty: ty }),
    {
        Variable { id, version: 0, ty }
    }

    /// What tells a variable from every other: its name and its version,
    /// as one number.
    pub open spec fn key(self) -> u128 {
        (self.id * 0x1_0000_0000_0000_0000 + self.version) as u128
    }

    /// What tells a variable from every other: its name and its version,
    /// as one number.
    pub fn get_key(&self) -> (r: u128)
        ensures
            r == self.key(),
    {
        (self.id as u128) * 0x1_0000_0000_0000_0000u128 + (self.version as u128)
    }

    /// Whether two variables have the same name and version.
    pub fn same_as(&self, other: &Variable) -> (r: bool)
        ensures
            r == (self.key() == other.key()),
    {
        self.id == other.id && self.version == other.version
    }
}

impl Clone for Variable {
    fn clone(&self) -> (r: Variable)
        ensures
            r == *self,
    {
        Variable { id: self.id, version: self.version, ty: self.ty.clone() }
    }
}

impl PartialEq for Variable {
    fn eq(&self, other: &Variable) -> (r: bool) {
        self.id == other.id && self.version == other.version && self.ty == other.ty
    }
}

impl Eq for Variable {}

impl PartialEqSpecImpl for Variable {
    open spec fn obeys_eq_spec() -> bool {
        true
    }

    open spec fn eq_spec(&self, other: &Variable) -> bool {
        *self == *other
    }
}

/// A literal scalar.
#[derive(Debug, Clone, Copy)]
pub enum Value {
    Boolean(bool),
    /// An unsigned integer: its number of bits, then its value.
    Uint(u8, u64),
    Field(FieldElement),
}

impl Value {
    /// The type of the value.
    pub open spec fn type_of(self) -> Type {
        match self {
            Value::Boolean(_) => Type::Boolean,
            Value::Uint(bits, _) => Type::Uint(bits),
            Value::Field(_) => Type::FieldElement,
        }
    }

    /// The type of the value.
    pub fn get_type(&self) -> (r: Type)
        ensures
            r == self.type_of(),
    {
        match self {
            Value::Boolean(_) => Type::Boolean,
            Value::Uint(bits, _) => Type::Uint(*bits),
            Value::Field(_) => Type::FieldElement,
        }
    }
}

impl PartialEq for Value {
    fn eq(&self, other: &Value) -> (r: bool) {
        match (self, other) {
            (Value::Boolean(a), Value::Boolean(b)) => *a == *b,
            (Value::Uint(w, a), Value::Uint(v, b)) => *w == *v && *a == *b,
            (Value::Field(a), Value::Field(b)) => {
                proof {
                    if a@ == b@ {
                        FieldElement::lemma_view_injective(*a, *b);
                    }
                }
                *a == *b
            },
            _ => false,
        }
    }
}

impl Eq for Value {}

impl PartialEqSpecImpl for Value {
    open spec fn obeys_eq_spec() -> bool {
        true
    }

    open spec fn eq_spec(&self, other: &Value) -> bool {
        *self == *other
    }
}

} // verus!
