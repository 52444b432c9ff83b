use vstd::prelude::*;

use crate::blueprint::Blueprint;
use crate::blueprint::field_map::FieldHash;
use crate::blueprint::model::{FieldName, FieldView, TypeName};
use crate::ir::{IR, IRView, clone_opt_ir, opt_ir_view};
use crate::value::{Json, JsonValue, Value, entries_get, entries_insert, entries_json, items_json};
use crate::wrapping_type::{Type, TypeView};

verus! {

/// The kind of an operation of a query document.
#[derive(Clone, Copy, Debug, PartialEq, Eq, Structural)]
pub enum OperationType {
    Query,
    Mutation,
    Subscription,
}

/// A field selected in a query: its name, its arguments (as an object, one
/// entry per argument name, in order of name) and the fields selected in it.
pub struct QueryField {
    pub name: String,
    pub arguments: Vec<(String, JsonValue)>,
    pub selection_set: SelectionSet,
}

/// An item of a selection set; fragments are not followed.
pub enum Selection {
    Field(QueryField),
    FragmentSpread,
    InlineFragment,
}

/// The items selected in a field or an operation.
pub struct SelectionSet {
    pub items: Vec<Selection>,
}

/// An operation of a query document: its kind and its selection set.
pub struct OperationDefinition {
    pub ty: OperationType,
    pub selection_set: SelectionSet,
}

/// The operations of a query document: one, or several in the order in
/// which they are to be considered.
pub enum DocumentOperations {
    Single(OperationDefinition),
    Multiple(Vec<OperationDefinition>),
}

/// A query document.
pub struct ExecutableDocument {
    pub operations: DocumentOperations,
}

/// A field to resolve for a query: its resolver, name and type, the fields
/// selected in it, its arguments, and its value once resolved.
pub struct Field {
    pub ir: Option<IR>,
    pub name: String,
    pub type_of: Type,
    pub nested: Vec<Field>,
    pub args: Option<Value>,
    pub resolved: Option<Value>,
}

/// The mathematical form of a [`Field`].
pub struct JitFieldView {
    pub ir: Option<IRView>,
    pub name: Seq<char>,
    pub type_of: TypeView,
    pub nested: Seq<JitFieldView>,
    pub args: Option<Json>,
    pub resolved: Option<Json>,
}

/// The mathematical form of an optional value.
pub open spec fn opt_value_json(v: Option<Value>) -> Option<Json> {
    match v {
        Some(x) => Some(x@),
        None => None,
    }
}

impl Field {
    /// The mathematical form of the field.
    pub open spec fn field_view(self) -> JitFieldView
        decreases self,
    {
        JitFieldView {
            ir: opt_ir_view(self.ir),
            name: self.name@,
            type_of: self.type_of@,
            nested: Seq::new(
                self.nested.len() as nat,
                |i: int|
                    if 0 <= i < self.nested.len() {
                        self.nested@[i].field_view()
                    } else {
                        self.field_view_leaf()
                    },
            ),
            args: opt_value_json(self.args),
            resolved: opt_value_json(self.resolved),
        }
    }

    /// The field without the fields selected in it.
    pub open spec fn field_view_leaf(self) -> JitFieldView {
        JitFieldView {
            ir: opt_ir_view(self.ir),
            name: self.name@,
            type_of: self.type_of@,
            nested: Seq::empty(),
            args: opt_value_json(self.args),
            resolved: opt_value_json(self.resolved),
        }
    }
}

impl View for Field {
    type V = JitFieldView;

    open spec fn view(&self) -> JitFieldView {
        self.field_view()
    }
}

/// The views of a sequence of fields.
pub open spec fn jit_fields_view(s: Seq<Field>) -> Seq<JitFieldView> {
    Seq::new(s.len(), |i: int| s[i]@)
}

/// The fields to resolve for a query.
pub struct Fields {
    pub fields: Vec<Field>,
}

impl View for Fields {
    type V = Seq<JitFieldView>;

    open spec fn view(&self) -> Seq<JitFieldView> {
        jit_fields_view(self.fields@)
    }
}

/// The arguments of a selected field: none when it has no argument, else
/// the object of its arguments.
pub open spec fn field_args(arguments: Seq<(String, JsonValue)>) -> Option<Json> {
    if arguments.len() == 0 {
        None
    } else {
        Some(Json::Object(entries_json(arguments)))
    }
}

/// The field to resolve for an item of a selection set on type `ty`: the
/// field that the blueprint has for a selected field of `ty`, with the
/// fields selected in it on its own type; nothing for other items.
pub open spec fn select_one(
    fields: Map<(Seq<char>, Seq<char>), FieldView>,
    item: Selection,
    ty: Seq<char>,
) -> Seq<JitFieldView>
    decreases item,
{
    match item {
        Selection::Field(f) => if fields.dom().contains((f.name@, ty)) {
            let def = fields[(f.name@, ty)];
            seq![
                JitFieldView {
                    ir: def.ir,
                    name: def.name,
                    type_of: def.type_of,
                    nested: select_fields(fields, f.selection_set.items@, def.type_of.named()),
                    args: field_args(f.arguments@),
                    resolved: None,
                },
            ]
        } else {
            Seq::empty()
        },
        _ => Seq::empty(),
    }
}

/// The fields to resolve for the items of a selection set on type `ty`, in
/// the order of the items.
pub open spec fn select_fields(
    fields: Map<(Seq<char>, Seq<char>), FieldView>,
    items: Seq<Selection>,
    ty: Seq<char>,
) -> Seq<JitFieldView>
    decreases items,
{
    if items.len() == 0 {
        Seq::empty()
    } else {
        select_one(fields, items[0], ty) + select_fields(fields, items.drop_first(), ty)
    }
}

/// Selecting the items `a` and then `x` selects the fields of `a` and then
/// those of `x`.
proof fn lemma_select_fields_push(
    fields: Map<(Seq<char>, Seq<char>), FieldView>,
    a: Seq<Selection>,
    x: Selection,
    ty: Seq<char>,
)
    ensures
        select_fields(fields, a.push(x), ty) == select_fields(fields, a, ty) + select_one(fields, x, ty),
    decreases a.len(),
{
    if a.len() == 0 {
        assert(a.push(x).drop_first() =~= Seq::<Selection>::empty());
        assert(a.push(x)[0] == x);
        assert(select_fields(fields, a.push(x).drop_first(), ty) == Seq::<JitFieldView>::empty());
        assert(select_fields(fields, a, ty) == Seq::<JitFieldView>::empty());
        assert(select_fields(fields, a.push(x), ty) =~= select_fields(fields, a, ty) + select_one(fields, x, ty));
    } else {
        assert(a.push(x).drop_first() =~= a.drop_first().push(x));
        assert(a.push(x)[0] == a[0]);
        lemma_select_fields_push(fields, a.drop_first(), x, ty);
        assert(select_fields(fields, a.push(x), ty) =~= select_fields(fields, a, ty) + select_one(fields, x, ty));
    }
}

/// Finds the fields of a query document in a blueprint.
pub struct PathFinder<'a> {
    pub doc: ExecutableDocument,
    pub blueprint: &'a Blueprint,
}

/// The operation of a document that is run: the only one, or the first.
pub open spec fn chosen_operation(doc: ExecutableDocument) -> OperationDefinition {
    match doc.operations {
        DocumentOperations::Single(op) => op,
        DocumentOperations::Multiple(ops) => ops@[0],
    }
}

/// Whether a document has an operation to run.
pub open spec fn has_operation(doc: ExecutableDocument) -> bool {
    match doc.operations {
        DocumentOperations::Single(_) => true,
        DocumentOperations::Multiple(ops) => ops@.len() > 0,
    }
}

/// The fields to resolve for the operation of a document: for a query,
/// those selected on the query type; none for a mutation or a subscription,
/// or when the schema has no query type.
pub open spec fn selected_fields(doc: ExecutableDocument, blueprint: Blueprint) -> Seq<JitFieldView> {
    if chosen_operation(doc).ty == OperationType::Query && blueprint.schema.query is Some {
        select_fields(blueprint.fields@, chosen_operation(doc).selection_set.items@, blueprint.schema.query->0@)
    } else {
        Seq::empty()
    }
}

/// Of a document with several operations, the fields selected are those of
/// its first operation: the same as for a document of that operation alone.
pub proof fn lemma_first_operation_selected(doc: ExecutableDocument, blueprint: Blueprint)
    requires
        doc.operations matches DocumentOperations::Multiple(ops) && ops@.len() > 0,
    ensures
        doc.operations matches DocumentOperations::Multiple(ops) && selected_fields(doc, blueprint)
            == selected_fields(
            ExecutableDocument { operations: DocumentOperations::Single(ops@[0]) },
            blueprint,
        ),
{
}

/// Operations that follow the first do not change the fields selected: two
/// documents of several operations, the operations of one leading those of
/// the other, select the same fields.
pub proof fn lemma_later_operations_ignored(a: ExecutableDocument, b: ExecutableDocument, blueprint: Blueprint)
    requires
        match (a.operations, b.operations) {
            (DocumentOperations::Multiple(xs), DocumentOperations::Multiple(ys)) => xs@.len() > 0
                && xs@.is_prefix_of(ys@),
            _ => false,
        },
    ensures
        selected_fields(a, blueprint) == selected_fields(b, blueprint),
{
    if let DocumentOperations::Multiple(xs) = a.operations {
        if let DocumentOperations::Multiple(ys) = b.operations {
            assert(xs@[0] == ys@[0]);
        }
    }
}

/// What the gateway does with a query document: nothing, when the schema
/// has no query type (it answers that only queries are served); else the
/// fields that the document's operation selects.
pub fn plan_query(doc: ExecutableDocument, blueprint: &Blueprint) -> (r: Option<Fields>)
    requires
        blueprint.schema.query is Some ==> has_operation(doc),
    ensures
        r is None <==> blueprint.schema.query is None,
        r matches Some(f) ==> f@ == selected_fields(doc, *blueprint),
{
    match &blueprint.schema.query {
        None => None,
        Some(_) => {
            let finder = PathFinder::new(doc, blueprint);
            Some(finder.exec())
        },
    }
}

impl<'a> PathFinder<'a> {
    /// A path finder for `doc` in `blueprint`.
    pub fn new(doc: ExecutableDocument, blueprint: &'a Blueprint) -> (r: PathFinder<'a>)
        ensures
            r.doc == doc,
            r.blueprint == blueprint,
    {
        PathFinder { doc, blueprint }
    }

    /// The fields to resolve for the operation of the document: for a query,
    /// those selected on the query type; none for a mutation or a
    /// subscription, or when the schema has no query type.
    pub fn exec(&self) -> (r: Fields)
        requires
            has_operation(self.doc),
        ensures
            r@ == selected_fields(self.doc, *self.blueprint),
    {
        let operation = match &self.doc.operations {
            DocumentOperations::Single(single) => single,
            DocumentOperations::Multiple(multi) => &multi[0],
        };
        let ty = match operation.ty {
            OperationType::Query => match &self.blueprint.schema.query {
                Some(q) => Some(q.as_str()),
                None => None,
            },
            OperationType::Mutation => None,
            OperationType::Subscription => None,
        };
        match ty {
            Some(ty) => Fields { fields: self.iter(&operation.selection_set, ty) },
            None => {
                let r = Fields { fields: Vec::new() };
                assert(r@ =~= Seq::<JitFieldView>::empty());
                r
            },
        }
    }

    /// The fields to resolve for a selection set on type `type_condition`.
    pub fn iter(&self, selection: &SelectionSet, type_condition: &str) -> (r: Vec<Field>)
        ensures
            jit_fields_view(r@) == select_fields(self.blueprint.fields@, selection.items@, type_condition@),
        decreases selection,
    {
        let ghost bf = self.blueprint.fields@;
        let ghost items = selection.items@;
        let mut fields: Vec<Field> = Vec::new();
        let mut i: usize = 0;
        assert(items.take(0) =~= Seq::<Selection>::empty());
        assert(jit_fields_view(fields@) =~= select_fields(bf, items.take(0), type_condition@));
        while i < selection.items.len()
            invariant
                bf == self.blueprint.fields@,
                items == selection.items@,
                i <= items.len(),
                jit_fields_view(fields@) == select_fields(bf, items.take(i as int), type_condition@),
            decreases items.len() - i,
        {
            proof {
                lemma_select_fields_push(bf, items.take(i as int), items[i as int], type_condition@);
                assert(items.take(i + 1) =~= items.take(i as int).push(items[i as int]));
            }
            match &selection.items[i] {
                Selection::Field(gql_field) => {
                    let key = FieldHash::new(
                        FieldName(gql_field.name.clone()),
                        TypeName(String::from_str(type_condition)),
                    );
                    match self.blueprint.fields.get(&key) {
                        Some(field_def) => {
                            let type_of = field_def.type_of.clone();
                            proof {
                                assert(decreases_to!(*selection => selection.items));
                                assert(decreases_to!(selection.items => selection.items@));
                                assert(decreases_to!(selection.items@ => selection.items@[i as int]));
                                assert(decreases_to!(selection.items@[i as int] => selection.items@[i as int]->Field_0));
                            }
                            let child_fields = self.iter(&gql_field.selection_set, type_of.name());
                            let args = if gql_field.arguments.len() == 0 {
                                None
                            } else {
                                let entries = JsonValue::clone_entries(&gql_field.arguments);
                                proof {
                                    JsonValue::lemma_object_view(entries);
                                }
                                Some(Value::new(JsonValue::Object(entries)))
                            };
                            let field = Field {
                                ir: clone_opt_ir(&field_def.ir),
                                name: field_def.name.0.clone(),
                                type_of,
                                nested: child_fields,
                                args,
                                resolved: None,
                            };
                            proof {
                                assert(field@.nested =~= jit_fields_view(field.nested@));
                            }
                            fields.push(field);
                            assert(jit_fields_view(fields@) =~= select_fields(bf, items.take(i as int), type_condition@) + select_one(bf, items[i as int], type_condition@));
                        },
                        None => {
                            assert(select_one(bf, items[i as int], type_condition@) =~= Seq::<JitFieldView>::empty());
                            assert(jit_fields_view(fields@) =~= select_fields(bf, items.take(i as int), type_condition@) + select_one(bf, items[i as int], type_condition@));
                        },
                    }
                },
                _ => {
                    assert(select_one(bf, items[i as int], type_condition@) =~= Seq::<JitFieldView>::empty());
                    assert(jit_fields_view(fields@) =~= select_fields(bf, items.take(i as int), type_condition@) + select_one(bf, items[i as int], type_condition@));
                },
            }
            i = i + 1;
        }
        assert(items.take(items.len() as int) =~= items);
        fields
    }
}

/// A field to resolve, borrowed from a [`Field`].
pub struct Field1<'a> {
    pub ir: Option<&'a IR>,
    pub name: &'a str,
    pub type_of: &'a Type,
    pub nested: Vec<Field1<'a>>,
    pub args: Option<&'a Value>,
    pub resolved: Option<&'a Value>,
}

/// The mathematical form of a borrowed optional resolver.
pub open spec fn opt_ref_ir_view(ir: Option<&IR>) -> Option<IRView> {
    match ir {
        Some(i) => Some(i@),
        None => None,
    }
}

/// The mathematical form of a borrowed optional value.
pub open spec fn opt_ref_json(v: Option<&Value>) -> Option<Json> {
    match v {
        Some(x) => Some(x@),
        None => None,
    }
}

impl<'a> Field1<'a> {
    /// The mathematical form of the field.
    pub open spec fn field1_view(self) -> JitFieldView
        decreases self,
    {
        JitFieldView {
            ir: opt_ref_ir_view(self.ir),
            name: self.name@,
            type_of: self.type_of@,
            nested: Seq::new(
                self.nested.len() as nat,
                |i: int|
                    if 0 <= i < self.nested.len() {
                        self.nested@[i].field1_view()
                    } else {
                        self.field1_leaf()
                    },
            ),
            args: opt_ref_json(self.args),
            resolved: opt_ref_json(self.resolved),
        }
    }

    /// The field without the fields selected in it.
    pub open spec fn field1_leaf(self) -> JitFieldView {
        JitFieldView {
            ir: opt_ref_ir_view(self.ir),
            name: self.name@,
            type_of: self.type_of@,
            nested: Seq::empty(),
            args: opt_ref_json(self.args),
            resolved: opt_ref_json(self.resolved),
        }
    }
}

impl<'a> View for Field1<'a> {
    type V = JitFieldView;

    open spec fn view(&self) -> JitFieldView {
        self.field1_view()
    }
}

/// The views of a sequence of borrowed fields.
pub open spec fn fields1_view(s: Seq<Field1>) -> Seq<JitFieldView> {
    Seq::new(s.len(), |i: int| s[i]@)
}

/// The fields to resolve for a query, borrowed.
pub struct Fields1<'a> {
    pub fields: Vec<Field1<'a>>,
}

impl<'a> View for Fields1<'a> {
    type V = Seq<JitFieldView>;

    open spec fn view(&self) -> Seq<JitFieldView> {
        fields1_view(self.fields@)
    }
}

impl Fields {
    /// The fields, borrowed.
    pub fn to_borrowed<'a>(&'a self) -> (r: Fields1<'a>)
        ensures
            r@ == self@,
    {
        let fields = Self::borrowed_inner(self.fields.as_slice());
        assert(fields1_view(fields@) =~= jit_fields_view(self.fields@));
        Fields1 { fields }
    }

    /// Borrows each field of a sequence, with the fields selected in it.
    pub fn borrowed_inner<'a>(vec: &'a [Field]) -> (r: Vec<Field1<'a>>)
        ensures
            r.len() == vec@.len(),
            forall|i: int| 0 <= i < vec@.len() ==> #[trigger] r@[i]@ == vec@[i]@,
        decreases vec@,
    {
        let mut ans: Vec<Field1<'a>> = Vec::new();
        let mut i: usize = 0;
        while i < vec.len()
            invariant
                i <= vec@.len(),
                ans.len() == i,
                forall|j: int| 0 <= j < i ==> #[trigger] ans@[j]@ == vec@[j]@,
            decreases vec@.len() - i,
        {
            let field = &vec[i];
            proof {
                assert(decreases_to!(vec@ => vec@[i as int]));
                assert(decreases_to!(vec@[i as int] => vec@[i as int].nested));
                assert(decreases_to!(vec@[i as int].nested => vec@[i as int].nested@));
            }
            let nested = Self::borrowed_inner(field.nested.as_slice());
            let ir = match &field.ir {
                Some(x) => Some(x),
                None => None,
            };
            let args = match &field.args {
                Some(x) => Some(x),
                None => None,
            };
            let resolved = match &field.resolved {
                Some(x) => Some(x),
                None => None,
            };
            let f1 = Field1 { ir, name: field.name.as_str(), type_of: &field.type_of, nested, args, resolved };
            proof {
                assert forall|j: int| 0 <= j < f1@.nested.len() implies f1@.nested[j] == field@.nested[j] by {
                    assert(f1.nested@[j]@ == field.nested@[j]@);
                }
                assert(f1@.nested =~= field@.nested);
            }
            ans.push(f1);
            i = i + 1;
        }
        ans
    }
}

/// The JSON that a field gives in the response, from `value` (or, without
/// it, from the value resolved for the field) at item `index` of the lists
/// on the way: an object gives the member of the field, or of each field
/// selected in it; a list gives the item at `index`, or every item in turn;
/// any other value is given as it is; without a value, `null`. Nothing when
/// `fuel` calls do not suffice.
pub open spec fn finalize_field(field: JitFieldView, value: Option<Json>, index: Option<int>, fuel: nat) -> Option<Json>
    decreases fuel, 0nat,
{
    if fuel == 0 {
        None
    } else {
        let v = if value is None && field.resolved is Some {
            field.resolved
        } else {
            value
        };
        match v {
            None => Some(Json::Null),
            Some(Json::Object(obj)) => if field.nested.len() == 0 {
                match finalize_field(field, entries_get(obj, field.name), index, (fuel - 1) as nat) {
                    Some(x) => Some(Json::Object(entries_insert(Seq::empty(), field.name, x))),
                    None => None,
                }
            } else {
                match finalize_children(field.nested, obj, index, (fuel - 1) as nat) {
                    Some(entries) => Some(Json::Object(entries)),
                    None => None,
                }
            },
            Some(Json::Array(arr)) => match index {
                Some(i) => finalize_field(
                    field,
                    if 0 <= i < arr.len() {
                        Some(arr[i])
                    } else {
                        None
                    },
                    None,
                    (fuel - 1) as nat,
                ),
                None => match finalize_items(field, arr, (fuel - 1) as nat) {
                    Some(items) => Some(Json::Array(items)),
                    None => None,
                },
            },
            Some(x) => Some(x),
        }
    }
}

/// The members that the fields `children` give from the object `obj`.
pub open spec fn finalize_children(children: Seq<JitFieldView>, obj: Seq<(Seq<char>, Json)>, index: Option<int>, fuel: nat) -> Option<
    Seq<(Seq<char>, Json)>,
>
    decreases fuel, children.len() + 1,
{
    if children.len() == 0 {
        Some(Seq::empty())
    } else {
        let last = children.last();
        match (
            finalize_children(children.drop_last(), obj, index, fuel),
            finalize_field(last, entries_get(obj, last.name), index, fuel),
        ) {
            (Some(acc), Some(x)) => Some(entries_insert(acc, last.name, x)),
            _ => None,
        }
    }
}

/// The items that a field gives from each item of a list, in turn.
pub open spec fn finalize_items(field: JitFieldView, arr: Seq<Json>, fuel: nat) -> Option<Seq<Json>>
    decreases fuel, arr.len() + 1,
{
    if arr.len() == 0 {
        Some(Seq::empty())
    } else {
        match (
            finalize_items(field, arr.drop_last(), fuel),
            finalize_field(field, Some(arr.last()), Some(arr.len() - 1), fuel),
        ) {
            (Some(acc), Some(x)) => Some(acc.push(x)),
            _ => None,
        }
    }
}

/// The members of the response data that the fields give.
pub open spec fn finalize_data(fields: Seq<JitFieldView>, fuel: nat) -> Option<Seq<(Seq<char>, Json)>>
    decreases fields.len(),
{
    if fields.len() == 0 {
        Some(Seq::empty())
    } else {
        let last = fields.last();
        match (finalize_data(fields.drop_last(), fuel), finalize_field(last, None, None, fuel)) {
            (Some(acc), Some(x)) => Some(entries_insert(acc, last.name, x)),
            _ => None,
        }
    }
}

/// The response of a query: `{"data": ...}` with a member per field.
pub open spec fn finalize_spec(fields: Seq<JitFieldView>, fuel: nat) -> Option<Json> {
    match finalize_data(fields, fuel) {
        Some(entries) => Some(Json::Object(seq![("data"@, Json::Object(entries))])),
        None => None,
    }
}

/// When the members of a prefix of the fields cannot be given, neither can
/// those of all the fields.
proof fn lemma_children_prefix_none(children: Seq<JitFieldView>, obj: Seq<(Seq<char>, Json)>, index: Option<int>, fuel: nat, j: int)
    requires
        0 <= j <= children.len(),
        finalize_children(children.take(j), obj, index, fuel) is None,
    ensures
        finalize_children(children, obj, index, fuel) is None,
    decreases children.len() - j,
{
    if j < children.len() {
        assert(children.take(j + 1).drop_last() =~= children.take(j));
        lemma_children_prefix_none(children, obj, index, fuel, j + 1);
    } else {
        assert(children.take(j) =~= children);
    }
}

/// When the items of a prefix of a list cannot be given, neither can those
/// of the whole list.
proof fn lemma_items_prefix_none(field: JitFieldView, arr: Seq<Json>, fuel: nat, j: int)
    requires
        0 <= j <= arr.len(),
        finalize_items(field, arr.take(j), fuel) is None,
    ensures
        finalize_items(field, arr, fuel) is None,
    decreases arr.len() - j,
{
    if j < arr.len() {
        assert(arr.take(j + 1).drop_last() =~= arr.take(j));
        lemma_items_prefix_none(field, arr, fuel, j + 1);
    } else {
        assert(arr.take(j) =~= arr);
    }
}

/// When the members of a prefix of the fields cannot be given, neither can
/// the response data.
proof fn lemma_data_prefix_none(fields: Seq<JitFieldView>, fuel: nat, j: int)
    requires
        0 <= j <= fields.len(),
        finalize_data(fields.take(j), fuel) is None,
    ensures
        finalize_data(fields, fuel) is None,
    decreases fields.len() - j,
{
    if j < fields.len() {
        assert(fields.take(j + 1).drop_last() =~= fields.take(j));
        lemma_data_prefix_none(fields, fuel, j + 1);
    } else {
        assert(fields.take(j) =~= fields);
    }
}

/// More fuel gives the same JSON for a field, once some fuel gives any.
proof fn lemma_field_fuel(field: JitFieldView, value: Option<Json>, index: Option<int>, n: nat, m: nat)
    requires
        n <= m,
        finalize_field(field, value, index, n) is Some,
    ensures
        finalize_field(field, value, index, m) == finalize_field(field, value, index, n),
    decreases n, 0nat,
{
    let v = if value is None && field.resolved is Some {
        field.resolved
    } else {
        value
    };
    match v {
        Some(Json::Object(obj)) => {
            if field.nested.len() == 0 {
                lemma_field_fuel(field, entries_get(obj, field.name), index, (n - 1) as nat, (m - 1) as nat);
            } else {
                lemma_children_fuel(field.nested, obj, index, (n - 1) as nat, (m - 1) as nat);
            }
        },
        Some(Json::Array(arr)) => match index {
            Some(i) => {
                let item = if 0 <= i < arr.len() {
                    Some(arr[i])
                } else {
                    None
                };
                lemma_field_fuel(field, item, None, (n - 1) as nat, (m - 1) as nat);
            },
            None => {
                lemma_items_fuel(field, arr, (n - 1) as nat, (m - 1) as nat);
            },
        },
        _ => {},
    }
}

/// More fuel gives the same members for fields, once some fuel gives any.
proof fn lemma_children_fuel(children: Seq<JitFieldView>, obj: Seq<(Seq<char>, Json)>, index: Option<int>, n: nat, m: nat)
    requires
        n <= m,
        finalize_children(children, obj, index, n) is Some,
    ensures
        finalize_children(children, obj, index, m) == finalize_children(children, obj, index, n),
    decreases n, children.len() + 1,
{
    if children.len() > 0 {
        let last = children.last();
        lemma_children_fuel(children.drop_last(), obj, index, n, m);
        lemma_field_fuel(last, entries_get(obj, last.name), index, n, m);
    }
}

/// More fuel gives the same items for a list, once some fuel gives any.
proof fn lemma_items_fuel(field: JitFieldView, arr: Seq<Json>, n: nat, m: nat)
    requires
        n <= m,
        finalize_items(field, arr, n) is Some,
    ensures
        finalize_items(field, arr, m) == finalize_items(field, arr, n),
    decreases n, arr.len() + 1,
{
    if arr.len() > 0 {
        lemma_items_fuel(field, arr.drop_last(), n, m);
        lemma_field_fuel(field, Some(arr.last()), Some(arr.len() - 1), n, m);
    }
}

/// The fuel of `finalize_spec` only bounds the work: once some fuel gives a
/// response, any more fuel gives the same response.
pub proof fn lemma_finalize_fuel(fields: Seq<JitFieldView>, n: nat, m: nat)
    requires
        n <= m,
        finalize_spec(fields, n) is Some,
    ensures
        finalize_spec(fields, m) == finalize_spec(fields, n),
{
    lemma_data_fuel(fields, n, m);
}

/// A field whose value is a list, asked for at the index `i` of an item of
/// that list, gives what it gives from the item at `i` itself; asked for at
/// an index outside the list, what it gives from no value.
pub proof fn lemma_finalize_list_index(field: JitFieldView, value: Option<Json>, arr: Seq<Json>, i: int, fuel: nat)
    requires
        fuel > 0,
        value == Some(Json::Array(arr)) || (value is None && field.resolved == Some(Json::Array(arr))),
    ensures
        0 <= i < arr.len() ==> finalize_field(field, value, Some(i), fuel) == finalize_field(
            field,
            Some(arr[i]),
            None,
            (fuel - 1) as nat,
        ),
        !(0 <= i < arr.len()) ==> finalize_field(field, value, Some(i), fuel) == finalize_field(
            field,
            None,
            None,
            (fuel - 1) as nat,
        ),
{
}

/// A field whose value is a list, asked for with no index, gives the list
/// of what it gives from each item, item `i` asked for at index `i`; the
/// list is given exactly when every item gives something.
pub proof fn lemma_finalize_items(field: JitFieldView, arr: Seq<Json>, fuel: nat)
    ensures
        finalize_items(field, arr, fuel) is Some <==> forall|i: int|
            0 <= i < arr.len() ==> #[trigger] finalize_field(field, Some(arr[i]), Some(i), fuel) is Some,
        finalize_items(field, arr, fuel) matches Some(items) ==> {
            &&& items.len() == arr.len()
            &&& forall|i: int|
                0 <= i < arr.len() ==> #[trigger] finalize_field(field, Some(arr[i]), Some(i), fuel) == Some(
                    items[i],
                )
        },
    decreases arr.len(),
{
    if arr.len() > 0 {
        let init = arr.drop_last();
        lemma_finalize_items(field, init, fuel);
        assert forall|i: int| 0 <= i < init.len() implies init[i] == arr[i] by {}
        if finalize_items(field, arr, fuel) is None {
            if finalize_items(field, init, fuel) is None {
                let k = choose|k: int|
                    0 <= k < init.len() && !(#[trigger] finalize_field(field, Some(init[k]), Some(k), fuel) is Some);
                assert(finalize_field(field, Some(arr[k]), Some(k), fuel) is None);
            } else {
                assert(finalize_field(field, Some(arr[arr.len() - 1]), Some(arr.len() - 1), fuel) is None);
            }
        } else {
            let items = finalize_items(field, arr, fuel)->0;
            let acc = finalize_items(field, init, fuel)->0;
            assert forall|i: int| 0 <= i < arr.len() implies #[trigger] finalize_field(
                field,
                Some(arr[i]),
                Some(i),
                fuel,
            ) == Some(items[i]) by {
                if i < init.len() {
                    assert(finalize_field(field, Some(init[i]), Some(i), fuel) == Some(acc[i]));
                }
            }
        }
    }
}

/// More fuel gives the same response data, once some fuel gives any.
proof fn lemma_data_fuel(fields: Seq<JitFieldView>, n: nat, m: nat)
    requires
        n <= m,
        finalize_data(fields, n) is Some,
    ensures
        finalize_data(fields, m) == finalize_data(fields, n),
    decreases fields.len(),
{
    if fields.len() > 0 {
        lemma_data_fuel(fields.drop_last(), n, m);
        lemma_field_fuel(fields.last(), None, None, n, m);
    }
}

/// An index of the lists on the way, as an integer.
pub open spec fn opt_index(i: Option<usize>) -> Option<int> {
    match i {
        Some(k) => Some(k as int),
        None => None,
    }
}

/// The mathematical form of an optional JSON value.
pub open spec fn opt_json_value(v: Option<JsonValue>) -> Option<Json> {
    match v {
        Some(x) => Some(x@),
        None => None,
    }
}

/// The mathematical form of a borrowed optional JSON value.
pub open spec fn opt_json_ref(v: Option<&JsonValue>) -> Option<Json> {
    match v {
        Some(x) => Some(x@),
        None => None,
    }
}

impl<'a> Fields1<'a> {
    /// The response of the query, `{"data": ...}`, with a member per field;
    /// nothing when the JSON of the fields takes more than `fuel` nested
    /// steps.
    pub fn finalize_bounded(&self, fuel: usize) -> (r: Option<JsonValue>)
        ensures
            opt_json_value(r) == finalize_spec(self@, fuel as nat),
    {
        let mut map: Vec<(String, JsonValue)> = Vec::new();
        let ghost fs = self@;
        let mut i: usize = 0;
        assert(fs.take(0) =~= Seq::<JitFieldView>::empty());
        while i < self.fields.len()
            invariant
                fs == self@,
                fs.len() == self.fields.len(),
                i <= self.fields.len(),
                finalize_data(fs.take(i as int), fuel as nat) == Some(entries_json(map@)),
            decreases self.fields.len() - i,
        {
            let field = &self.fields[i];
            assert(fs.take(i + 1).drop_last() =~= fs.take(i as int));
            assert(fs.take(i + 1).last() == field@);
            match Self::finalize_inner(field, None, None, fuel) {
                Some(val) => {
                    JsonValue::object_insert(&mut map, String::from_str(field.name), val);
                },
                None => {
                    proof {
                        lemma_data_prefix_none(fs, fuel as nat, i + 1);
                    }
                    return None;
                },
            }
            i = i + 1;
        }
        assert(fs.take(fs.len() as int) =~= fs);
        let mut ans: Vec<(String, JsonValue)> = Vec::new();
        proof {
            JsonValue::lemma_object_view(map);
        }
        JsonValue::object_insert(&mut ans, String::from_str("data"), JsonValue::Object(map));
        proof {
            JsonValue::lemma_object_view(ans);
            reveal_strlit("data");
            assert(entries_json(ans@) =~= seq![("data"@, Json::Object(entries_json(map@)))]);
        }
        Some(JsonValue::Object(ans))
    }

    /// The response of the query, `{"data": ...}`, with a member per field;
    /// `null` when the JSON of the fields nests deeper than `usize::MAX`
    /// steps.
    pub fn finalize(&self) -> (r: JsonValue)
        ensures
            match finalize_spec(self@, usize::MAX as nat) {
                Some(j) => r@ == j,
                None => r@ == Json::Null,
            },
    {
        match self.finalize_bounded(usize::MAX) {
            Some(v) => v,
            None => JsonValue::Null,
        }
    }

    /// The JSON that `field` gives from `value` (or from its resolved value),
    /// at item `index` of the lists on the way; nothing when `fuel` calls do
    /// not suffice.
    pub fn finalize_inner(field: &Field1, value: Option<&JsonValue>, index: Option<usize>, fuel: usize) -> (r: Option<JsonValue>)
        ensures
            opt_json_value(r) == finalize_field(field@, opt_json_ref(value), opt_index(index), fuel as nat),
        decreases fuel,
    {
        if fuel == 0 {
            return None;
        }
        let ghost value0 = opt_json_ref(value);
        let mut cur = value;
        if cur.is_none() {
            match field.resolved {
                Some(val) => {
                    cur = Some(val.serde());
                },
                None => {},
            }
        }
        match cur {
            None => Some(JsonValue::Null),
            Some(val) => match val {
                JsonValue::Object(obj) => {
                    proof {
                        JsonValue::lemma_object_view(*obj);
                    }
                    let mut ans: Vec<(String, JsonValue)> = Vec::new();
                    if field.nested.len() == 0 {
                        let key = String::from_str(field.name);
                        let v = JsonValue::object_get(obj, &key);
                        match Self::finalize_inner(field, v, index, fuel - 1) {
                            Some(x) => {
                                JsonValue::object_insert(&mut ans, key, x);
                            },
                            None => {
                                return None;
                            },
                        }
                    } else {
                        let ghost children = field@.nested;
                        let mut j: usize = 0;
                        assert(children.take(0) =~= Seq::<JitFieldView>::empty());
                        while j < field.nested.len()
                            invariant
                                value0 == opt_json_ref(value),
                                children == field@.nested,
                                children.len() == field.nested.len(),
                                finalize_field(field@, value0, opt_index(index), fuel as nat) == match finalize_children(children, entries_json(obj@), opt_index(index), (fuel - 1) as nat) {
                                    Some(e) => Some(Json::Object(e)),
                                    None => None,
                                },
                                j <= field.nested.len(),
                                fuel > 0,
                                finalize_children(children.take(j as int), entries_json(obj@), opt_index(index), (fuel - 1) as nat)
                                    == Some(entries_json(ans@)),
                            decreases field.nested.len() - j,
                        {
                            let child = &field.nested[j];
                            assert(children[j as int] == child@);
                            assert(children.take(j + 1).drop_last() =~= children.take(j as int));
                            assert(children.take(j + 1).last() == child@);
                            let key = String::from_str(child.name);
                            let v = JsonValue::object_get(obj, &key);
                            match Self::finalize_inner(child, v, index, fuel - 1) {
                                Some(x) => {
                                    JsonValue::object_insert(&mut ans, key, x);
                                },
                                None => {
                                    proof {
                                        lemma_children_prefix_none(children, entries_json(obj@), opt_index(index), (fuel - 1) as nat, j + 1);
                                    }
                                    return None;
                                },
                            }
                            j = j + 1;
                        }
                        assert(children.take(children.len() as int) =~= children);
                    }
                    proof {
                        JsonValue::lemma_object_view(ans);
                    }
                    Some(JsonValue::Object(ans))
                },
                JsonValue::Array(arr) => {
                    proof {
                        JsonValue::lemma_array_view(*arr);
                    }
                    match index {
                        Some(i) => {
                            let v = if i < arr.len() {
                                Some(&arr[i])
                            } else {
                                None
                            };
                            Self::finalize_inner(field, v, None, fuel - 1)
                        },
                        None => {
                            let ghost items = items_json(arr@);
                            let mut out: Vec<JsonValue> = Vec::new();
                            let mut k: usize = 0;
                            assert(items.take(0) =~= Seq::<Json>::empty());
                            assert(items_json(out@) =~= Seq::<Json>::empty());
                            while k < arr.len()
                                invariant
                                    value0 == opt_json_ref(value),
                                    items == items_json(arr@),
                                    finalize_field(field@, value0, opt_index(index), fuel as nat) == match finalize_items(field@, items, (fuel - 1) as nat) {
                                        Some(e) => Some(Json::Array(e)),
                                        None => None,
                                    },
                                    k <= arr.len(),
                                    fuel > 0,
                                    finalize_items(field@, items.take(k as int), (fuel - 1) as nat)
                                        == Some(items_json(out@)),
                                decreases arr.len() - k,
                            {
                                assert(items.take(k + 1).drop_last() =~= items.take(k as int));
                                assert(items.take(k + 1).last() == arr@[k as int]@);
                                match Self::finalize_inner(field, Some(&arr[k]), Some(k), fuel - 1) {
                                    Some(x) => {
                                        let ghost before = out@;
                                        out.push(x);
                                        assert(items_json(out@) =~= items_json(before).push(x@));
                                    },
                                    None => {
                                        proof {
                                            lemma_items_prefix_none(field@, items, (fuel - 1) as nat, k + 1);
                                        }
                                        return None;
                                    },
                                }
                                k = k + 1;
                            }
                            assert(items.take(items.len() as int) =~= items);
                            proof {
                                JsonValue::lemma_array_view(out);
                            }
                            Some(JsonValue::Array(out))
                        },
                    }
                },
                other => Some(other.deep_clone()),
            },
        }
    }
}

} // verus!
