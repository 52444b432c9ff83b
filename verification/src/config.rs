use vstd::prelude::*;

use crate::http::Method;
use crate::map::{StrMap, keys_sorted, seq_lookup};
use crate::value::JsonValue;
use crate::wrapping_type::Type;

verus! {

/// A query parameter of an `@http` resolver: its key, the template of its
/// value, and whether to leave it out when the value is empty.
pub struct URLQuery {
    pub key: String,
    pub value: String,
    pub skip_empty: Option<bool>,
}

/// A key and a value.
pub struct KeyValue {
    pub key: String,
    pub value: String,
}

/// The `@http` resolver of a field: the path, the method, the base URL that
/// overrides the upstream's, and the query parameters.
pub struct Http {
    pub path: String,
    pub method: Method,
    pub base_url: Option<String>,
    pub query: Vec<URLQuery>,
}

/// How a field is resolved.
pub enum Resolver {
    Http(Http),
}

/// An argument of a field: its type and its default value.
pub struct Arg {
    pub type_of: Type,
    pub default_value: Option<JsonValue>,
}

/// A field of a type: its type, its resolver, and its arguments by name.
pub struct Field {
    pub ty_of: Type,
    pub resolver: Option<Resolver>,
    pub args: StrMap<Arg>,
}

/// The `@cache` directive of a type: the maximum age, in milliseconds.
pub struct Cache {
    pub max_age: u64,
}

/// A type of the schema: its fields by name, and its cache directive.
pub struct Type1 {
    pub fields: StrMap<Field>,
    pub cache: Option<Cache>,
}

/// The `@upstream` directive: the base URL of the resolvers, and the size of
/// the HTTP cache.
pub struct Upstream {
    pub base_url: Option<String>,
    pub http_cache: Option<u64>,
}

/// The `@server` directive: the port to listen on.
pub struct Server {
    pub port: u16,
}

/// The root operation types of the schema.
pub struct RootSchema {
    pub query: Option<String>,
    pub mutation: Option<String>,
    pub subscription: Option<String>,
}

/// A configuration read from a schema: its types by name, the upstream and
/// the server directives, and the root operation types.
pub struct Config {
    pub types: StrMap<Type1>,
    pub upstream: Upstream,
    pub server: Server,
    pub schema: RootSchema,
}

/// The kind of a GraphQL operation.
#[derive(Clone, Copy, Debug, PartialEq, Eq, Structural)]
pub enum GraphQLOperationType {
    Query,
    Mutation,
}

impl Default for GraphQLOperationType {
    fn default() -> (r: Self)
        ensures
            r == GraphQLOperationType::Query,
    {
        GraphQLOperationType::Query
    }
}

impl View for Arg {
    type V = Arg;

    open spec fn view(&self) -> Arg {
        *self
    }
}

impl View for Field {
    type V = Field;

    open spec fn view(&self) -> Field {
        *self
    }
}

impl View for Type1 {
    type V = Type1;

    open spec fn view(&self) -> Type1 {
        *self
    }
}

impl Default for Server {
    fn default() -> (r: Server)
        ensures
            r.port == 8000,
    {
        Server { port: 8000 }
    }
}

impl Clone for RootSchema {
    fn clone(&self) -> (r: RootSchema)
        ensures
            r == *self,
    {
        RootSchema {
            query: self.query.clone(),
            mutation: self.mutation.clone(),
            subscription: self.subscription.clone(),
        }
    }
}

/// The value of the last entry of `entries` with key `key`.
pub open spec fn last_with_key(entries: Seq<(String, Field)>, key: Seq<char>) -> Option<Field>
    decreases entries.len(),
{
    if entries.len() == 0 {
        None
    } else if entries.last().0@ == key {
        Some(entries.last().1)
    } else {
        last_with_key(entries.drop_last(), key)
    }
}

impl Type1 {
    /// The type with its fields replaced by `fields`: each name maps to the
    /// last field given for it, the names in order.
    pub fn fields(self, fields: Vec<(String, Field)>) -> (r: Type1)
        ensures
            keys_sorted(r.fields@),
            forall|k: Seq<char>| #[trigger] r.fields.lookup(k) == last_with_key(fields@, k),
            r.cache == self.cache,
    {
        let ghost all = fields@;
        let mut map: StrMap<Field> = StrMap::new();
        let mut rest = fields;
        let ghost mut taken: Seq<(String, Field)> = Seq::empty();
        assert(taken + rest@ =~= all);
        while rest.len() > 0
            invariant
                taken + rest@ == all,
                keys_sorted(map@),
                forall|k: Seq<char>| #[trigger] map.lookup(k) == last_with_key(taken, k),
            decreases rest.len(),
        {
            let ghost before = rest@;
            let (name, field) = rest.remove(0);
            proof {
                assert(before =~= seq![(name, field)] + rest@);
                let ghost t2 = taken.push((name, field));
                assert(t2 + rest@ =~= all);
                assert(t2.drop_last() =~= taken);
                taken = t2;
            }
            map.insert(name, field);
        }
        assert(taken =~= all);
        Type1 { fields: map, cache: self.cache }
    }

    /// Whether the type has no fields: a scalar.
    pub fn scalar(&self) -> (r: bool)
        ensures
            r == (self.fields@.len() == 0),
    {
        self.fields.is_empty()
    }
}

/// Reads configurations.
pub struct ConfigReader {}

impl ConfigReader {
    /// A reader.
    pub fn init() -> (r: ConfigReader) {
        ConfigReader {  }
    }
}

} // verus!
