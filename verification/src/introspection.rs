use vstd::prelude::*;

use crate::query_info::{FieldView, Schema, fields_normal, named_type};
use crate::type_info::{Root, TypeView, type_normal};

verus! {

/// The query that asks a GraphQL server for the name, the kind and the
/// fields, with their argument names, of the type named `name`.
pub open spec fn type_query(name: Seq<char>) -> Seq<char> {
    "\n        {\n          __type(name: \""@ + name
        + "\") {\n            name\n            kind\n            fields {\n              name\n              args {\n                name\n              }\n            }\n          }\n        }\n        "@
}

/// Builds the query about the type named `name`.
pub fn query_builder(name: &str) -> (r: String)
    ensures
        r@ == type_query(name@),
{
    let head = String::from_str("\n        {\n          __type(name: \"");
    head.concat(name).concat(
        "\") {\n            name\n            kind\n            fields {\n              name\n              args {\n                name\n              }\n            }\n          }\n        }\n        ",
    )
}

/// Answers that are compared in the form in which they are written, where
/// the order in which the server listed fields and arguments plays no part.
pub trait NormalForm: View + Sized {
    /// The written form of an answer.
    spec fn normal_view(v: Self::V) -> Self::V;

    /// The answer in its written form.
    fn normal(self) -> (r: Self)
        ensures
            r@ == Self::normal_view(self@),
    ;

    /// Whether two answers are the same.
    fn same_as(&self, other: &Self) -> (r: bool)
        ensures
            r == (self@ == other@),
    ;
}

impl NormalForm for Schema {
    open spec fn normal_view(v: Seq<FieldView>) -> Seq<FieldView> {
        fields_normal(v)
    }

    fn normal(self) -> (r: Schema) {
        self.into_normal()
    }

    fn same_as(&self, other: &Schema) -> (r: bool) {
        self.same(other)
    }
}

impl NormalForm for Root {
    open spec fn normal_view(v: TypeView) -> TypeView {
        type_normal(v)
    }

    fn normal(self) -> (r: Root) {
        self.into_normal()
    }

    fn same_as(&self, other: &Root) -> (r: bool) {
        self.same(other)
    }
}

/// Compares two answers in their written forms; the error carries
/// `error_message` when they differ.
pub fn compare<T: NormalForm>(actual: T, expected: T, error_message: &str) -> (r: Result<(), String>)
    ensures
        r is Ok <==> T::normal_view(actual@) == T::normal_view(expected@),
        r matches Err(m) ==> m@ == error_message@,
{
    let a = actual.normal();
    let e = expected.normal();
    if a.same_as(&e) {
        Ok(())
    } else {
        Err(String::from_str(error_message))
    }
}

/// What to do for one field of the query type when two servers' answers are
/// checked against each other.
pub enum IntrospectionStep {
    /// No field is left.
    Done,
    /// One server names the output type of the field and the other does not.
    Mismatch(String),
    /// Ask each server about the output type it names.
    Compare { actual: String, expected: String },
}

/// Whether the step at `i` can be taken: a field that both answers have
/// has an output type named by at least one of them.
pub open spec fn step_defined(actual: Seq<FieldView>, expected: Seq<FieldView>, i: int) -> bool {
    i < actual.len() && i < expected.len() ==> !(named_type(actual[i].field_type) is None
        && named_type(expected[i].field_type) is None)
}

/// The step for the field at `i` of both answers: done when either has no
/// such field; a mismatch, with the field's name in the actual answer, when
/// only one names its output type; else the queries about both types.
pub fn introspection_step(actual: &Schema, expected: &Schema, i: usize) -> (r: IntrospectionStep)
    requires
        step_defined(actual@, expected@, i as int),
    ensures
        (i >= actual@.len() || i >= expected@.len()) <==> r is Done,
        r matches IntrospectionStep::Mismatch(name) ==> {
            &&& name@ == actual@[i as int].name
            &&& named_type(actual@[i as int].field_type) is None != named_type(
                expected@[i as int].field_type,
            ) is None
        },
        r matches IntrospectionStep::Compare { actual: a, expected: e } ==> {
            &&& named_type(actual@[i as int].field_type) matches Some(n) && a@ == type_query(n)
            &&& named_type(expected@[i as int].field_type) matches Some(m) && e@ == type_query(m)
        },
{
    let fa = &actual.data.schema.query_type.fields;
    let fe = &expected.data.schema.query_type.fields;
    if i >= fa.len() || i >= fe.len() {
        return IntrospectionStep::Done;
    }
    let a = &fa[i];
    let e = &fe[i];
    let na = a.field_type.get_name();
    let ne = e.field_type.get_name();
    proof {
        assert(actual@[i as int] == a@);
        assert(expected@[i as int] == e@);
    }
    match (na, ne) {
        (Some(x), Some(y)) => IntrospectionStep::Compare {
            actual: query_builder(x.as_str()),
            expected: query_builder(y.as_str()),
        },
        _ => IntrospectionStep::Mismatch(a.name.clone()),
    }
}

} // verus!
