use vstd::prelude::*;

use crate::map::str_eq;
use crate::sort::{
    Named, lemma_sort_by_name, lemma_sort_by_name_idempotent, lemma_sort_by_name_sorted_unchanged,
    name_of, sort_by_name, sort_by_name_vec, sorted_by_name, views_of,
};

verus! {

/// A field of a type as introspection reports it: its name and the names of
/// its arguments.
pub struct Field {
    name: String,
    args: Vec<String>,
}

/// The mathematical form of a `Field`.
pub struct FieldView {
    pub name: Seq<char>,
    pub args: Seq<Seq<char>>,
}

impl View for Field {
    type V = FieldView;

    closed spec fn view(&self) -> FieldView {
        FieldView { name: self.name@, args: views_of(self.args@) }
    }
}

impl Named for Field {
    open spec fn view_name(v: FieldView) -> Seq<char> {
        v.name
    }

    fn name_str(&self) -> (r: &str) {
        self.name.as_str()
    }
}

/// A field with its argument names in order.
pub open spec fn field_normal(f: FieldView) -> FieldView {
    FieldView { args: sort_by_name(f.args, name_of::<String>()), ..f }
}

/// Whether two sequences of texts are the same.
fn same_texts(a: &Vec<String>, b: &Vec<String>) -> (r: bool)
    ensures
        r == (views_of(a@) == views_of(b@)),
{
    if a.len() != b.len() {
        assert(views_of(a@).len() != views_of(b@).len());
        return false;
    }
    let mut i: usize = 0;
    while i < a.len()
        invariant
            a.len() == b.len(),
            i <= a.len(),
            forall|j: int| 0 <= j < i ==> a@[j]@ == b@[j]@,
        decreases a.len() - i,
    {
        if !str_eq(a[i].as_str(), b[i].as_str()) {
            assert(views_of(a@)[i as int] != views_of(b@)[i as int]);
            return false;
        }
        i = i + 1;
    }
    assert(views_of(a@) =~= views_of(b@));
    true
}

impl Field {
    /// A field as it is read: its argument names in order.
    pub fn new(name: String, args: Vec<String>) -> (r: Field)
        ensures
            r@ == field_normal(FieldView { name: name@, args: views_of(args@) }),
    {
        Field { name, args: sort_by_name_vec(args) }
    }

    /// The name of the field.
    pub fn name(&self) -> (r: &String)
        ensures
            r@ == self@.name,
    {
        &self.name
    }

    /// The names of the arguments.
    pub fn args(&self) -> (r: &Vec<String>)
        ensures
            views_of(r@) == self@.args,
    {
        &self.args
    }

    /// The field as it is written: its argument names in order.
    pub fn into_normal(self) -> (r: Field)
        ensures
            r@ == field_normal(self@),
    {
        Field::new(self.name, self.args)
    }

    /// Whether two fields are the same.
    pub fn same(&self, other: &Field) -> (r: bool)
        ensures
            r == (self@ == other@),
    {
        str_eq(self.name.as_str(), other.name.as_str()) && same_texts(&self.args, &other.args)
    }
}

/// Fields as they are read and written: each with its argument names in
/// order, and the fields ordered by name.
pub open spec fn fields_normal(fs: Seq<FieldView>) -> Seq<FieldView> {
    sort_by_name(fs.map_values(|f: FieldView| field_normal(f)), name_of::<Field>())
}

/// Each field with its argument names in order.
fn normal_each(fields: Vec<Field>) -> (r: Vec<Field>)
    ensures
        views_of(r@) == views_of(fields@).map_values(|f: FieldView| field_normal(f)),
{
    let ghost all = fields@;
    let mut rest = fields;
    let mut out: Vec<Field> = Vec::new();
    let ghost mut taken: int = 0;
    while rest.len() > 0
        invariant
            0 <= taken <= all.len(),
            rest@ == all.skip(taken),
            out.len() == taken,
            forall|j: int| 0 <= j < taken ==> #[trigger] out@[j]@ == field_normal(all[j]@),
        decreases rest.len(),
    {
        let ghost before = rest@;
        let f = rest.remove(0);
        proof {
            assert(before[0] == all[taken]);
            assert(rest@ =~= all.skip(taken + 1));
        }
        out.push(f.into_normal());
        proof {
            taken = taken + 1;
        }
    }
    assert(views_of(out@) =~= views_of(all).map_values(|f: FieldView| field_normal(f)));
    out
}

/// Whether two sequences of fields are the same.
fn same_fields(a: &Vec<Field>, b: &Vec<Field>) -> (r: bool)
    ensures
        r == (views_of(a@) == views_of(b@)),
{
    if a.len() != b.len() {
        assert(views_of(a@).len() != views_of(b@).len());
        return false;
    }
    let mut i: usize = 0;
    while i < a.len()
        invariant
            a.len() == b.len(),
            i <= a.len(),
            forall|j: int| 0 <= j < i ==> a@[j]@ == b@[j]@,
        decreases a.len() - i,
    {
        if !a[i].same(&b[i]) {
            assert(views_of(a@)[i as int] != views_of(b@)[i as int]);
            return false;
        }
        i = i + 1;
    }
    assert(views_of(a@) =~= views_of(b@));
    true
}

/// A type as introspection reports it: its name, its kind and its fields.
pub struct Type {
    name: String,
    kind: String,
    fields: Vec<Field>,
}

/// The mathematical form of a `Type`.
pub struct TypeView {
    pub name: Seq<char>,
    pub kind: Seq<char>,
    pub fields: Seq<FieldView>,
}

impl View for Type {
    type V = TypeView;

    closed spec fn view(&self) -> TypeView {
        TypeView { name: self.name@, kind: self.kind@, fields: views_of(self.fields@) }
    }
}

/// A type as it is written: its fields in normal form.
pub open spec fn type_normal(t: TypeView) -> TypeView {
    TypeView { fields: fields_normal(t.fields), ..t }
}

impl Type {
    /// A type as it is read: its fields ordered by name, those of equal
    /// names in their given order.
    pub fn new(name: String, kind: String, fields: Vec<Field>) -> (r: Type)
        ensures
            r@ == (TypeView {
                name: name@,
                kind: kind@,
                fields: sort_by_name(views_of(fields@), name_of::<Field>()),
            }),
    {
        Type { name, kind, fields: sort_by_name_vec(fields) }
    }

    /// The name of the type.
    pub fn name(&self) -> (r: &String)
        ensures
            r@ == self@.name,
    {
        &self.name
    }

    /// The kind of the type.
    pub fn kind(&self) -> (r: &String)
        ensures
            r@ == self@.kind,
    {
        &self.kind
    }

    /// The fields of the type.
    pub fn fields(&self) -> (r: &Vec<Field>)
        ensures
            views_of(r@) == self@.fields,
    {
        &self.fields
    }

    /// The type as it is written: its fields in normal form.
    pub fn into_normal(self) -> (r: Type)
        ensures
            r@ == type_normal(self@),
    {
        Type::new(self.name, self.kind, normal_each(self.fields))
    }

    /// Whether two types are the same.
    pub fn same(&self, other: &Type) -> (r: bool)
        ensures
            r == (self@ == other@),
    {
        str_eq(self.name.as_str(), other.name.as_str()) && str_eq(self.kind.as_str(), other.kind.as_str())
            && same_fields(&self.fields, &other.fields)
    }
}

/// The data of an answer about one type.
pub struct Data {
    type_info: Type,
}

impl Data {
    /// Data about a type.
    pub fn new(type_info: Type) -> (r: Data)
        ensures
            r.type_info() == type_info,
    {
        Data { type_info }
    }

    /// The type.
    pub closed spec fn type_info(&self) -> Type {
        self.type_info
    }

    /// The type.
    pub fn get_type_info(&self) -> (r: &Type)
        ensures
            *r == self.type_info(),
    {
        &self.type_info
    }
}

/// An answer about one type.
pub struct Root {
    data: Data,
}

impl View for Root {
    type V = TypeView;

    open spec fn view(&self) -> TypeView {
        self.data().type_info()@
    }
}

impl Root {
    /// An answer holding `data`.
    pub fn new(data: Data) -> (r: Root)
        ensures
            r.data() == data,
    {
        Root { data }
    }

    /// The data.
    pub closed spec fn data(&self) -> Data {
        self.data
    }

    /// The data.
    pub fn get_data(&self) -> (r: &Data)
        ensures
            *r == self.data(),
    {
        &self.data
    }

    /// The answer as it is written: its type in normal form.
    pub fn into_normal(self) -> (r: Root)
        ensures
            r@ == type_normal(self@),
    {
        Root { data: Data { type_info: self.data.type_info.into_normal() } }
    }

    /// Whether two answers are the same.
    pub fn same(&self, other: &Root) -> (r: bool)
        ensures
            r == (self@ == other@),
    {
        self.data.type_info.same(&other.data.type_info)
    }
}

/// A field of a normal form is the normal form of a given field, with its
/// argument names in order.
proof fn lemma_normal_member(fs: Seq<FieldView>, f: FieldView)
    requires
        fields_normal(fs).contains(f),
    ensures
        f == field_normal(f),
        sorted_by_name(f.args, name_of::<String>()),
{
    broadcast use vstd::seq_lib::to_multiset_contains;

    let m = fs.map_values(|g: FieldView| field_normal(g));
    lemma_sort_by_name(m, name_of::<Field>());
    assert(fields_normal(fs).to_multiset().count(f) > 0);
    assert(m.contains(f));
    let k = choose|k: int| 0 <= k < m.len() && m[k] == f;
    lemma_sort_by_name(fs[k].args, name_of::<String>());
    lemma_sort_by_name_idempotent(fs[k].args, name_of::<String>());
}

/// In the normal form of a type the fields are ordered by name, each with
/// its argument names in order, and each field given appears, as often as
/// it was given.
pub proof fn lemma_type_normal(t: TypeView)
    ensures
        sorted_by_name(type_normal(t).fields, name_of::<Field>()),
        type_normal(t).fields.to_multiset() == t.fields.map_values(|f: FieldView| field_normal(f)).to_multiset(),
        forall|i: int| 0 <= i < type_normal(t).fields.len() ==> sorted_by_name(
            #[trigger] type_normal(t).fields[i].args,
            name_of::<String>(),
        ),
        type_normal(t).name == t.name,
        type_normal(t).kind == t.kind,
{
    let m = t.fields.map_values(|f: FieldView| field_normal(f));
    let n = type_normal(t).fields;
    lemma_sort_by_name(m, name_of::<Field>());
    assert forall|i: int| 0 <= i < n.len() implies sorted_by_name(
        #[trigger] n[i].args,
        name_of::<String>(),
    ) by {
        lemma_normal_member(t.fields, n[i]);
    }
}

/// Putting a type in normal form twice gives what putting it once gives.
pub proof fn lemma_type_normal_idempotent(t: TypeView)
    ensures
        type_normal(type_normal(t)) == type_normal(t),
{
    let n = fields_normal(t.fields);
    lemma_type_normal(t);
    assert forall|i: int| 0 <= i < n.len() implies field_normal(n[i]) == n[i] by {
        lemma_normal_member(t.fields, n[i]);
    }
    assert(n.map_values(|f: FieldView| field_normal(f)) =~= n);
    lemma_sort_by_name_sorted_unchanged(n, name_of::<Field>());
}

} // verus!
