use vstd::prelude::*;

use crate::blueprint::field_map::FieldMap;
use crate::config::RootSchema;
use crate::ir::{IR, IRView, opt_ir_view};
use crate::value::{Json, JsonValue, entries_json};
use crate::wrapping_type::{Type, TypeView};

pub mod builder;
pub mod definitions;
pub mod field_map;
pub mod model;
pub mod operators;

verus! {

/// Why a configuration gives no blueprint.
#[derive(Clone, Copy, Debug, PartialEq, Eq, Structural)]
pub enum BlueprintError {
    /// The schema names no query type.
    QueryNotFound,
    /// An `@http` resolver has no base URL, and neither has the upstream.
    NoBaseUrl,
}

impl BlueprintError {
    /// The message of the error.
    pub fn message(&self) -> (r: &'static str)
        ensures
            *self == BlueprintError::QueryNotFound ==> r@ == "Query not found"@,
            *self == BlueprintError::NoBaseUrl ==> r@ == "No base URL defined"@,
    {
        match self {
            BlueprintError::QueryNotFound => "Query not found",
            BlueprintError::NoBaseUrl => "No base URL defined",
        }
    }
}

/// Where the gateway listens: an IPv4 address, by its four octets, and a port.
#[derive(Clone, Copy)]
pub struct Server {
    pub host: [u8; 4],
    pub port: u16,
}

impl Default for Server {
    fn default() -> (r: Server)
        ensures
            r.host@ == seq![127u8, 0u8, 0u8, 1u8],
            r.port == 8000,
    {
        Server { host: [127, 0, 0, 1], port: 8000 }
    }
}

/// The upstream of the gateway: the base URL of its resolvers and the size
/// of its HTTP cache.
pub struct Upstream {
    pub base_url: Option<String>,
    pub http_cache: u64,
}

impl Default for Upstream {
    fn default() -> (r: Upstream)
        ensures
            r.base_url is None,
            r.http_cache == 0,
    {
        Upstream { base_url: None, http_cache: 0 }
    }
}

impl Clone for Upstream {
    fn clone(&self) -> (r: Upstream)
        ensures
            r == *self,
    {
        Upstream { base_url: self.base_url.clone(), http_cache: self.http_cache }
    }
}

/// What the gateway serves: the fields of the types reachable from the query
/// type, the server, the upstream, and the root operation types.
pub struct Blueprint {
    pub fields: FieldMap,
    pub server: Server,
    pub upstream: Upstream,
    pub schema: RootSchema,
}

/// A directive on a field: its name, its arguments and its position.
pub struct Directive {
    pub name: String,
    pub arguments: Vec<(String, JsonValue)>,
    pub index: usize,
}

/// The mathematical form of a [`Directive`].
pub struct DirectiveView {
    pub name: Seq<char>,
    pub arguments: Seq<(Seq<char>, Json)>,
    pub index: usize,
}

impl View for Directive {
    type V = DirectiveView;

    open spec fn view(&self) -> DirectiveView {
        DirectiveView { name: self.name@, arguments: entries_json(self.arguments@), index: self.index }
    }
}

/// An argument of a field definition, or a field of an input type.
pub struct InputFieldDefinition {
    pub name: String,
    pub of_type: Type,
}

/// The mathematical form of an [`InputFieldDefinition`].
pub struct InputFieldDefinitionView {
    pub name: Seq<char>,
    pub of_type: TypeView,
}

impl View for InputFieldDefinition {
    type V = InputFieldDefinitionView;

    open spec fn view(&self) -> InputFieldDefinitionView {
        InputFieldDefinitionView { name: self.name@, of_type: self.of_type@ }
    }
}

impl Clone for InputFieldDefinition {
    fn clone(&self) -> (r: Self)
        ensures
            r@ == self@,
    {
        InputFieldDefinition { name: self.name.clone(), of_type: self.of_type.clone() }
    }
}

/// The definition of a field: its name, arguments, type, resolver and
/// directives.
pub struct FieldDefinition {
    pub name: String,
    pub args: Vec<InputFieldDefinition>,
    pub of_type: Type,
    pub resolver: Option<IR>,
    pub directives: Vec<Directive>,
}

/// The mathematical form of a [`FieldDefinition`].
pub struct FieldDefinitionView {
    pub name: Seq<char>,
    pub args: Seq<InputFieldDefinitionView>,
    pub of_type: TypeView,
    pub resolver: Option<IRView>,
    pub directives: Seq<DirectiveView>,
}

/// The views of a sequence of input field definitions.
pub open spec fn input_fields_view(s: Seq<InputFieldDefinition>) -> Seq<InputFieldDefinitionView> {
    Seq::new(s.len(), |i: int| s[i]@)
}

impl View for FieldDefinition {
    type V = FieldDefinitionView;

    open spec fn view(&self) -> FieldDefinitionView {
        FieldDefinitionView {
            name: self.name@,
            args: input_fields_view(self.args@),
            of_type: self.of_type@,
            resolver: opt_ir_view(self.resolver),
            directives: Seq::new(self.directives@.len(), |i: int| self.directives@[i]@),
        }
    }
}

impl FieldDefinition {
    /// A definition with an empty name, no arguments, no resolver and no
    /// directives, of the named type with an empty name.
    pub fn default() -> (r: FieldDefinition)
        ensures
            r@.name == Seq::<char>::empty(),
            r@.args == Seq::<InputFieldDefinitionView>::empty(),
            r@.of_type == (TypeView::Named { name: Seq::empty(), non_null: false }),
            r@.resolver is None,
            r@.directives == Seq::<DirectiveView>::empty(),
    {
        let r = FieldDefinition {
            name: String::new(),
            args: Vec::new(),
            of_type: Type::Named { name: String::new(), non_null: false },
            resolver: None,
            directives: Vec::new(),
        };
        assert(r@.args =~= Seq::<InputFieldDefinitionView>::empty());
        assert(r@.directives =~= Seq::<DirectiveView>::empty());
        r
    }
}

/// The definition of an object type: its name and its fields.
pub struct ObjectTypeDefinition {
    pub name: String,
    pub fields: Vec<FieldDefinition>,
}

/// The definition of an interface type: its name and its fields.
pub struct InterfaceTypeDefinition {
    pub name: String,
    pub fields: Vec<FieldDefinition>,
}

/// The definition of an input type: its name and its fields.
pub struct InputObjectTypeDefinition {
    pub name: String,
    pub fields: Vec<InputFieldDefinition>,
}

/// The definition of a type.
pub enum Definition {
    Interface(InterfaceTypeDefinition),
    Object(ObjectTypeDefinition),
    InputObject(InputObjectTypeDefinition),
}

/// The mathematical form of a [`Definition`].
pub enum DefinitionView {
    Interface { name: Seq<char>, fields: Seq<FieldDefinitionView> },
    Object { name: Seq<char>, fields: Seq<FieldDefinitionView> },
    InputObject { name: Seq<char>, input_fields: Seq<InputFieldDefinitionView> },
}

/// The views of a sequence of field definitions.
pub open spec fn field_defs_view(s: Seq<FieldDefinition>) -> Seq<FieldDefinitionView> {
    Seq::new(s.len(), |i: int| s[i]@)
}

impl View for Definition {
    type V = DefinitionView;

    open spec fn view(&self) -> DefinitionView {
        match self {
            Definition::Interface(d) => DefinitionView::Interface {
                name: d.name@,
                fields: field_defs_view(d.fields@),
            },
            Definition::Object(d) => DefinitionView::Object {
                name: d.name@,
                fields: field_defs_view(d.fields@),
            },
            Definition::InputObject(d) => DefinitionView::InputObject {
                name: d.name@,
                input_fields: input_fields_view(d.fields@),
            },
        }
    }
}

/// The views of a sequence of definitions.
pub open spec fn definitions_view(s: Seq<Definition>) -> Seq<DefinitionView> {
    Seq::new(s.len(), |i: int| s[i]@)
}

} // verus!
