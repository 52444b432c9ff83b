use vstd::prelude::*;

use crate::ir::{IR, IRView, opt_ir_view};
use crate::wrapping_type::{Type, TypeView};

verus! {

/// The name of a field.
pub struct FieldName(pub String);

/// The name of a type.
pub struct TypeName(pub String);

/// The position of an argument.
pub struct ArgId(usize);

impl ArgId {
    /// The argument at position `id`.
    pub fn new(id: usize) -> (r: ArgId)
        ensures
            r.spec_id() == id,
    {
        ArgId(id)
    }

    /// The position.
    pub closed spec fn spec_id(self) -> usize {
        self.0
    }
}

/// The position of a field.
pub struct FieldId(usize);

impl FieldId {
    /// The field at position `id`.
    pub fn new(id: usize) -> (r: FieldId)
        ensures
            r.spec_id() == id,
    {
        FieldId(id)
    }

    /// The position.
    pub closed spec fn spec_id(self) -> usize {
        self.0
    }

    /// The position, as a number.
    pub fn as_usize(&self) -> (r: usize)
        ensures
            r == self.spec_id(),
    {
        self.0
    }
}

/// A field by its position.
pub struct Flat(pub FieldId);

/// An argument of a field in the blueprint: its name and its type.
pub struct Arg {
    pub name: String,
    pub type_of: Type,
}

/// The mathematical form of an [`Arg`].
pub struct ArgView {
    pub name: Seq<char>,
    pub type_of: TypeView,
}

impl View for Arg {
    type V = ArgView;

    open spec fn view(&self) -> ArgView {
        ArgView { name: self.name@, type_of: self.type_of@ }
    }
}

impl Clone for Arg {
    fn clone(&self) -> (r: Arg)
        ensures
            r@ == self@,
    {
        Arg { name: self.name.clone(), type_of: self.type_of.clone() }
    }
}

/// A field of the blueprint: its name, type and resolver, and its arguments.
pub struct Field {
    pub name: FieldName,
    pub type_of: Type,
    pub ir: Option<IR>,
    pub args: Vec<Arg>,
}

/// The mathematical form of a [`Field`].
pub struct FieldView {
    pub name: Seq<char>,
    pub type_of: TypeView,
    pub ir: Option<IRView>,
    pub args: Seq<ArgView>,
}

/// The views of a sequence of arguments.
pub open spec fn args_view(s: Seq<Arg>) -> Seq<ArgView> {
    Seq::new(s.len(), |i: int| s[i]@)
}

impl View for Field {
    type V = FieldView;

    open spec fn view(&self) -> FieldView {
        FieldView {
            name: self.name.0@,
            type_of: self.type_of@,
            ir: opt_ir_view(self.ir),
            args: args_view(self.args@),
        }
    }
}

/// A list of fields.
pub struct Nested(pub Vec<Field>);

} // verus!
