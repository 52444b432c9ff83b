use vstd::prelude::*;

use crate::map::str_eq;
use crate::sort::{
    Named, lemma_sort_by_name, lemma_sort_by_name_idempotent, lemma_sort_by_name_sorted_unchanged,
    name_of, sort_by_name, sort_by_name_vec, sorted_by_name, views_of,
};
use crate::text::{opt_str, opt_str_eq};

verus! {

/// The type of a field or an argument as introspection reports it: its
/// kind, its name, and the type it wraps (of a list or a non-null type).
pub struct FieldType {
    pub kind: String,
    pub name: Option<String>,
    pub of_type: Option<Box<FieldType>>,
}

/// The mathematical form of a `FieldType`.
pub struct FieldTypeView {
    pub kind: Seq<char>,
    pub name: Option<Seq<char>>,
    pub of_type: Option<Box<FieldTypeView>>,
}

/// The mathematical form of a field type, level by level.
pub open spec fn field_type_view(t: FieldType) -> FieldTypeView
    decreases t,
{
    FieldTypeView {
        kind: t.kind@,
        name: opt_str(t.name),
        of_type: match t.of_type {
            Some(b) => Some(Box::new(field_type_view(*b))),
            None => None,
        },
    }
}

impl View for FieldType {
    type V = FieldTypeView;

    open spec fn view(&self) -> FieldTypeView {
        field_type_view(*self)
    }
}

/// The name of a type: its own when it has a non-empty one, else that of
/// the type it wraps, if any.
pub open spec fn named_type(t: FieldTypeView) -> Option<Seq<char>>
    decreases t,
{
    if t.name is Some && t.name->0.len() > 0 {
        t.name
    } else {
        match t.of_type {
            Some(b) => named_type(*b),
            None => None,
        }
    }
}

impl FieldType {
    /// The name of the named type at the bottom of this one.
    pub fn get_name(&self) -> (r: Option<String>)
        ensures
            opt_str(r) == named_type(self@),
        decreases self,
    {
        match &self.name {
            Some(name) => {
                if !name.as_str().is_empty() {
                    return Some(name.clone());
                }
            },
            None => {},
        }
        match &self.of_type {
            Some(t) => t.get_name(),
            None => None,
        }
    }

    /// Whether two field types are the same, level by level.
    pub fn same(&self, other: &FieldType) -> (r: bool)
        ensures
            r == (self@ == other@),
        decreases self,
    {
        if !str_eq(self.kind.as_str(), other.kind.as_str()) {
            return false;
        }
        if !opt_str_eq(&self.name, &other.name) {
            return false;
        }
        match (&self.of_type, &other.of_type) {
            (Some(x), Some(y)) => x.same(y),
            (None, None) => true,
            _ => false,
        }
    }
}

/// An argument of a field: its name, its type and its default value.
pub struct Argument {
    pub name: String,
    pub arg_type: FieldType,
    pub default_value: Option<String>,
}

/// The mathematical form of an `Argument`.
pub struct ArgumentView {
    pub name: Seq<char>,
    pub arg_type: FieldTypeView,
    pub default_value: Option<Seq<char>>,
}

impl View for Argument {
    type V = ArgumentView;

    open spec fn view(&self) -> ArgumentView {
        ArgumentView {
            name: self.name@,
            arg_type: self.arg_type@,
            default_value: opt_str(self.default_value),
        }
    }
}

impl Named for Argument {
    open spec fn view_name(v: ArgumentView) -> Seq<char> {
        v.name
    }

    fn name_str(&self) -> (r: &str) {
        self.name.as_str()
    }
}

impl Argument {
    /// Whether two arguments are the same.
    pub fn same(&self, other: &Argument) -> (r: bool)
        ensures
            r == (self@ == other@),
    {
        str_eq(self.name.as_str(), other.name.as_str()) && self.arg_type.same(&other.arg_type)
            && opt_str_eq(&self.default_value, &other.default_value)
    }
}

/// A field of the query type: its name, its type and its arguments.
pub struct Field {
    pub name: String,
    pub field_type: FieldType,
    pub args: Vec<Argument>,
}

/// The mathematical form of a `Field`.
pub struct FieldView {
    pub name: Seq<char>,
    pub field_type: FieldTypeView,
    pub args: Seq<ArgumentView>,
}

impl View for Field {
    type V = FieldView;

    open spec fn view(&self) -> FieldView {
        FieldView { name: self.name@, field_type: self.field_type@, args: views_of(self.args@) }
    }
}

impl Named for Field {
    open spec fn view_name(v: FieldView) -> Seq<char> {
        v.name
    }

    fn name_str(&self) -> (r: &str) {
        self.name.as_str()
    }
}

/// A field with its arguments ordered by name, as it is read and written.
pub open spec fn field_normal(f: FieldView) -> FieldView {
    FieldView { args: sort_by_name(f.args, name_of::<Argument>()), ..f }
}

/// Fields as they are read and written: each with its arguments ordered by
/// name, and the fields ordered by name.
pub open spec fn fields_normal(fs: Seq<FieldView>) -> Seq<FieldView> {
    sort_by_name(fs.map_values(|f: FieldView| field_normal(f)), name_of::<Field>())
}

/// Whether two sequences of arguments are the same.
fn same_arguments(a: &Vec<Argument>, b: &Vec<Argument>) -> (r: bool)
    ensures
        r == (views_of(a@) == views_of(b@)),
{
    if a.len() != b.len() {
        assert(views_of(a@).len() != views_of(b@).len());
        return false;
    }
    let mut i: usize = 0;
    while i < a.len()
        invariant
            a.len() == b.len(),
            i <= a.len(),
            forall|j: int| 0 <= j < i ==> a@[j]@ == b@[j]@,
        decreases a.len() - i,
    {
        if !a[i].same(&b[i]) {
            assert(views_of(a@)[i as int] != views_of(b@)[i as int]);
            return false;
        }
        i = i + 1;
    }
    assert(views_of(a@) =~= views_of(b@));
    true
}

impl Field {
    /// A field as it is read: its arguments ordered by name, those of equal
    /// names in their given order.
    pub fn new(name: String, field_type: FieldType, args: Vec<Argument>) -> (r: Field)
        ensures
            r@ == field_normal(FieldView { name: name@, field_type: field_type@, args: views_of(args@) }),
    {
        Field { name, field_type, args: sort_by_name_vec(args) }
    }

    /// The field as it is written: its arguments ordered by name.
    pub fn into_normal(self) -> (r: Field)
        ensures
            r@ == field_normal(self@),
    {
        Field::new(self.name, self.field_type, self.args)
    }

    /// Whether two fields are the same.
    pub fn same(&self, other: &Field) -> (r: bool)
        ensures
            r == (self@ == other@),
    {
        str_eq(self.name.as_str(), other.name.as_str()) && self.field_type.same(&other.field_type)
            && same_arguments(&self.args, &other.args)
    }
}

/// Whether two sequences of fields are the same.
fn same_fields(a: &Vec<Field>, b: &Vec<Field>) -> (r: bool)
    ensures
        r == (views_of(a@) == views_of(b@)),
{
    if a.len() != b.len() {
        assert(views_of(a@).len() != views_of(b@).len());
        return false;
    }
    let mut i: usize = 0;
    while i < a.len()
        invariant
            a.len() == b.len(),
            i <= a.len(),
            forall|j: int| 0 <= j < i ==> a@[j]@ == b@[j]@,
        decreases a.len() - i,
    {
        if !a[i].same(&b[i]) {
            assert(views_of(a@)[i as int] != views_of(b@)[i as int]);
            return false;
        }
        i = i + 1;
    }
    assert(views_of(a@) =~= views_of(b@));
    true
}

/// Each field with its arguments ordered by name.
fn normal_each(fields: Vec<Field>) -> (r: Vec<Field>)
    ensures
        views_of(r@) == views_of(fields@).map_values(|f: FieldView| field_normal(f)),
{
    let ghost all = fields@;
    let mut rest = fields;
    let mut out: Vec<Field> = Vec::new();
    let ghost mut taken: int = 0;
    while rest.len() > 0
        invariant
            0 <= taken <= all.len(),
            rest@ == all.skip(taken),
            out.len() == taken,
            forall|j: int| 0 <= j < taken ==> #[trigger] out@[j]@ == field_normal(all[j]@),
        decreases rest.len(),
    {
        let ghost before = rest@;
        let f = rest.remove(0);
        proof {
            assert(before[0] == all[taken]);
            assert(rest@ =~= all.skip(taken + 1));
        }
        out.push(f.into_normal());
        proof {
            taken = taken + 1;
        }
    }
    assert(views_of(out@) =~= views_of(all).map_values(|f: FieldView| field_normal(f)));
    out
}

/// The fields of the query type.
pub struct QueryType {
    pub fields: Vec<Field>,
}

impl View for QueryType {
    type V = Seq<FieldView>;

    open spec fn view(&self) -> Seq<FieldView> {
        views_of(self.fields@)
    }
}

impl QueryType {
    /// The query type as it is read: its fields ordered by name, those of
    /// equal names in their given order.
    pub fn new(fields: Vec<Field>) -> (r: QueryType)
        ensures
            r@ == sort_by_name(views_of(fields@), name_of::<Field>()),
    {
        QueryType { fields: sort_by_name_vec(fields) }
    }

    /// The query type as it is written: each field with its arguments
    /// ordered by name, and the fields ordered by name.
    pub fn into_normal(self) -> (r: QueryType)
        ensures
            r@ == fields_normal(self@),
    {
        QueryType::new(normal_each(self.fields))
    }

    /// Whether two query types are the same.
    pub fn same(&self, other: &QueryType) -> (r: bool)
        ensures
            r == (self@ == other@),
    {
        same_fields(&self.fields, &other.fields)
    }
}

/// The schema part of an introspection answer.
pub struct SchemaType {
    pub query_type: QueryType,
}

/// The data of an introspection answer.
pub struct SchemaData {
    pub schema: SchemaType,
}

/// An introspection answer about the query type of a schema.
pub struct Schema {
    pub data: SchemaData,
}

impl View for Schema {
    type V = Seq<FieldView>;

    open spec fn view(&self) -> Seq<FieldView> {
        self.data.schema.query_type@
    }
}

impl Schema {
    /// The answer as it is written: its query type in normal form.
    pub fn into_normal(self) -> (r: Schema)
        ensures
            r@ == fields_normal(self@),
    {
        Schema {
            data: SchemaData {
                schema: SchemaType { query_type: self.data.schema.query_type.into_normal() },
            },
        }
    }

    /// Whether two answers are the same.
    pub fn same(&self, other: &Schema) -> (r: bool)
        ensures
            r == (self@ == other@),
    {
        self.data.schema.query_type.same(&other.data.schema.query_type)
    }
}

/// Every field of a normal form has its arguments ordered by name, the
/// fields are ordered by name, and each field given appears there, as
/// often as it was given, with its arguments ordered.
pub proof fn lemma_fields_normal(fs: Seq<FieldView>)
    ensures
        sorted_by_name(fields_normal(fs), name_of::<Field>()),
        fields_normal(fs).to_multiset() == fs.map_values(|f: FieldView| field_normal(f)).to_multiset(),
        forall|i: int| 0 <= i < fields_normal(fs).len() ==> sorted_by_name(
            #[trigger] fields_normal(fs)[i].args,
            name_of::<Argument>(),
        ),
{
    let m = fs.map_values(|f: FieldView| field_normal(f));
    let n = fields_normal(fs);
    lemma_sort_by_name(m, name_of::<Field>());
    assert forall|i: int| 0 <= i < n.len() implies sorted_by_name(
        #[trigger] n[i].args,
        name_of::<Argument>(),
    ) by {
        lemma_normal_member(fs, n[i]);
    }
}

/// A field of a normal form is the normal form of a given field.
proof fn lemma_normal_member(fs: Seq<FieldView>, f: FieldView)
    requires
        fields_normal(fs).contains(f),
    ensures
        f == field_normal(f),
        sorted_by_name(f.args, name_of::<Argument>()),
{
    broadcast use vstd::seq_lib::to_multiset_contains;

    let m = fs.map_values(|g: FieldView| field_normal(g));
    lemma_sort_by_name(m, name_of::<Field>());
    assert(fields_normal(fs).to_multiset().count(f) > 0);
    assert(m.contains(f));
    let k = choose|k: int| 0 <= k < m.len() && m[k] == f;
    lemma_sort_by_name(fs[k].args, name_of::<Argument>());
    lemma_sort_by_name_idempotent(fs[k].args, name_of::<Argument>());
}

/// Putting fields in normal form twice gives what putting them once gives.
pub proof fn lemma_fields_normal_idempotent(fs: Seq<FieldView>)
    ensures
        fields_normal(fields_normal(fs)) == fields_normal(fs),
{
    let n = fields_normal(fs);
    lemma_fields_normal(fs);
    assert forall|i: int| 0 <= i < n.len() implies field_normal(n[i]) == n[i] by {
        lemma_normal_member(fs, n[i]);
    }
    assert(n.map_values(|f: FieldView| field_normal(f)) =~= n);
    lemma_sort_by_name_sorted_unchanged(n, name_of::<Field>());
}

} // verus!
