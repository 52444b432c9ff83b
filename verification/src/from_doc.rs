use vstd::prelude::*;

use crate::config::{Arg, Cache, Config, Field, Http, Resolver, RootSchema, Server, Type1, Upstream};
use crate::map::{StrMap, str_eq};
use crate::value::JsonValue;
use crate::wrapping_type::Type;

verus! {

/// An argument of a field in a schema document: its name, its type and its
/// default value.
pub struct DocArg {
    pub name: String,
    pub ty: Type,
    pub default_value: Option<JsonValue>,
}

/// A field of a type in a schema document: its name, its type, its
/// arguments, and its directives, each by its name with its arguments read
/// as an `@http` directive (or why they could not be).
pub struct DocField {
    pub name: String,
    pub ty: Type,
    pub args: Vec<DocArg>,
    pub directives: Vec<(String, Result<Http, String>)>,
}

/// The kind of a type definition; the text of another kind says which.
pub enum DocKind {
    Object,
    Interface,
    InputObject,
    Other(String),
}

/// A type definition of a schema document: its name, its kind, its
/// directives, each by its name with its arguments read as a `@cache`
/// directive (or why they could not be), and its fields.
pub struct DocType {
    pub name: String,
    pub kind: DocKind,
    pub directives: Vec<(String, Result<Cache, String>)>,
    pub fields: Vec<DocField>,
}

/// A directive of the schema definition, its arguments read as an
/// `@upstream` and as a `@server` directive (or why they could not be).
pub struct SchemaDirective {
    pub as_upstream: Result<Upstream, String>,
    pub as_server: Result<Server, String>,
}

/// The schema definition of a document: its directives by name, and the
/// names of its root operation types.
pub struct DocSchema {
    pub directives: Vec<(String, SchemaDirective)>,
    pub query: Option<String>,
    pub mutation: Option<String>,
    pub subscription: Option<String>,
}

/// A schema document: its type definitions in order, and its first schema
/// definition, if any.
pub struct SchemaDocument {
    pub types: Vec<DocType>,
    pub schema: Option<DocSchema>,
}

/// What the first directive named `name` holds.
pub open spec fn first_directive<T>(ds: Seq<(String, T)>, name: Seq<char>) -> Option<T>
    decreases ds.len(),
{
    if ds.len() == 0 {
        None
    } else if ds[0].0@ == name {
        Some(ds[0].1)
    } else {
        first_directive(ds.drop_first(), name)
    }
}

/// What the last directive named `name` holds.
pub open spec fn last_directive<T>(ds: Seq<(String, T)>, name: Seq<char>) -> Option<T>
    decreases ds.len(),
{
    if ds.len() == 0 {
        None
    } else if ds.last().0@ == name {
        Some(ds.last().1)
    } else {
        last_directive(ds.drop_last(), name)
    }
}

/// Takes what the first directive named `name` holds.
pub fn select_first<T>(ds: Vec<(String, T)>, name: &str) -> (r: Option<T>)
    ensures
        r == first_directive(ds@, name@),
{
    let ghost all = ds@;
    let mut i: usize = 0;
    assert(all.skip(0) =~= all);
    while i < ds.len()
        invariant
            ds@ == all,
            i <= ds.len(),
            first_directive(all, name@) == first_directive(all.skip(i as int), name@),
        decreases ds.len() - i,
    {
        assert(all.skip(i as int).drop_first() =~= all.skip(i + 1));
        assert(all.skip(i as int)[0] == all[i as int]);
        if str_eq(ds[i].0.as_str(), name) {
            let mut ds = ds;
            let (_, t) = ds.remove(i);
            return Some(t);
        }
        i = i + 1;
    }
    None
}

/// Takes what the last directive named `name` holds.
pub fn select_last<T>(ds: Vec<(String, T)>, name: &str) -> (r: Option<T>)
    ensures
        r == last_directive(ds@, name@),
{
    let ghost all = ds@;
    let mut i: usize = ds.len();
    assert(all.take(i as int) =~= all);
    while i > 0
        invariant
            ds@ == all,
            i <= ds.len(),
            last_directive(all, name@) == last_directive(all.take(i as int), name@),
        decreases i,
    {
        assert(all.take(i as int).drop_last() =~= all.take(i - 1));
        assert(all.take(i as int).last() == all[i - 1]);
        if str_eq(ds[i - 1].0.as_str(), name) {
            let mut ds = ds;
            let (_, t) = ds.remove(i - 1);
            return Some(t);
        }
        i = i - 1;
    }
    None
}

/// The last argument named `name`.
pub open spec fn last_arg(args: Seq<DocArg>, name: Seq<char>) -> Option<DocArg>
    decreases args.len(),
{
    if args.len() == 0 {
        None
    } else if args.last().name@ == name {
        Some(args.last())
    } else {
        last_arg(args.drop_last(), name)
    }
}

/// The argument of the configuration that a document argument gives.
pub open spec fn arg_of(a: DocArg) -> Arg {
    Arg { type_of: a.ty, default_value: a.default_value }
}

/// Whether a map of arguments holds, for each name, the last argument of
/// that name.
pub open spec fn args_match(m: StrMap<Arg>, args: Seq<DocArg>) -> bool {
    forall|n: Seq<char>|
        #[trigger] m.lookup(n) == match last_arg(args, n) {
            Some(a) => Some(arg_of(a)),
            None => None,
        }
}

/// The arguments of a field by name; of two with a name the later stays.
fn to_args(args: Vec<DocArg>) -> (r: StrMap<Arg>)
    ensures
        args_match(r, args@),
{
    let ghost all = args@;
    let mut rest = args;
    let mut map: StrMap<Arg> = StrMap::new();
    let ghost mut taken: int = 0;
    proof {
        assert(all.take(0) =~= Seq::<DocArg>::empty());
    }
    while rest.len() > 0
        invariant
            0 <= taken <= all.len(),
            rest@ == all.skip(taken),
            args_match(map, all.take(taken)),
        decreases rest.len(),
    {
        let ghost before = rest@;
        let a = rest.remove(0);
        proof {
            assert(before[0] == all[taken]);
            assert(rest@ =~= all.skip(taken + 1));
            assert(all.take(taken + 1).drop_last() =~= all.take(taken));
            assert(all.take(taken + 1).last() == a);
        }
        let DocArg { name, ty, default_value } = a;
        map.insert(name, Arg { type_of: ty, default_value });
        proof {
            taken = taken + 1;
        }
    }
    assert(all.take(taken) =~= all);
    map
}

/// The resolver that the first `@http` directive of a field gives, or why
/// it could not be read.
pub open spec fn field_resolver(d: DocField) -> Result<Option<Resolver>, String> {
    match first_directive(d.directives@, "http"@) {
        None => Ok(None),
        Some(Ok(h)) => Ok(Some(Resolver::Http(h))),
        Some(Err(m)) => Err(m),
    }
}

/// Whether `f` is the field of the configuration that the document field
/// `d` gives: its type, its resolver, and its arguments (none for a field
/// of an input type).
pub open spec fn field_from(f: Field, d: DocField, input: bool) -> bool {
    &&& f.ty_of == d.ty
    &&& field_resolver(d) == Ok::<Option<Resolver>, String>(f.resolver)
    &&& args_match(f.args, if input { Seq::empty() } else { d.args@ })
}

/// The field of the configuration that a document field gives; fails when
/// its `@http` directive cannot be read.
fn to_field(d: DocField, input: bool) -> (r: Result<Field, String>)
    ensures
        match r {
            Ok(f) => field_from(f, d, input),
            Err(m) => field_resolver(d) == Err::<Option<Resolver>, String>(m),
        },
{
    let ghost d0 = d;
    let DocField { name: _, ty, args, directives } = d;
    let resolver = match select_first(directives, "http") {
        None => None,
        Some(Ok(h)) => Some(Resolver::Http(h)),
        Some(Err(m)) => {
            return Err(m);
        },
    };
    let args = if input {
        let m: StrMap<Arg> = StrMap::new();
        proof {
            assert forall|n: Seq<char>| #[trigger] m.lookup(n) == match last_arg(Seq::<DocArg>::empty(), n) {
                Some(a) => Some(arg_of(a)),
                None => None,
            } by {}
        }
        m
    } else {
        to_args(args)
    };
    Ok(Field { ty_of: ty, resolver, args })
}

/// The last field named `name`.
pub open spec fn last_field(fs: Seq<DocField>, name: Seq<char>) -> Option<DocField>
    decreases fs.len(),
{
    if fs.len() == 0 {
        None
    } else if fs.last().name@ == name {
        Some(fs.last())
    } else {
        last_field(fs.drop_last(), name)
    }
}

/// Why the first field that cannot be read cannot be, if one cannot.
pub open spec fn fields_error(fs: Seq<DocField>) -> Option<Seq<char>>
    decreases fs.len(),
{
    if fs.len() == 0 {
        None
    } else {
        match field_resolver(fs[0]) {
            Err(m) => Some(m@),
            Ok(_) => fields_error(fs.drop_first()),
        }
    }
}

/// Whether a map of fields holds, for each name, the field that the last
/// document field of that name gives.
pub open spec fn fields_match(m: StrMap<Field>, fs: Seq<DocField>, input: bool) -> bool {
    forall|n: Seq<char>|
        (#[trigger] m.lookup(n) is Some <==> last_field(fs, n) is Some) && (last_field(fs, n) matches Some(d)
            ==> field_from(m.lookup(n)->0, d, input))
}

/// The fields of a type by name; of two with a name the later stays. Fails
/// with the first field whose `@http` directive cannot be read.
fn to_fields(fs: Vec<DocField>, input: bool) -> (r: Result<StrMap<Field>, String>)
    ensures
        match r {
            Ok(m) => fields_error(fs@) is None && fields_match(m, fs@, input),
            Err(e) => fields_error(fs@) == Some(e@),
        },
{
    let ghost all = fs@;
    let mut rest = fs;
    let mut map: StrMap<Field> = StrMap::new();
    let ghost mut taken: int = 0;
    proof {
        assert(all.take(0) =~= Seq::<DocField>::empty());
        assert(all.skip(0) =~= all);
    }
    while rest.len() > 0
        invariant
            all == fs@,
            0 <= taken <= all.len(),
            rest@ == all.skip(taken),
            fields_error(all) == fields_error(all.skip(taken)),
            fields_match(map, all.take(taken), input),
        decreases rest.len(),
    {
        let ghost before = rest@;
        let f = rest.remove(0);
        proof {
            assert(before[0] == all[taken]);
            assert(rest@ =~= all.skip(taken + 1));
            assert(all.skip(taken).drop_first() =~= all.skip(taken + 1));
            assert(all.take(taken + 1).drop_last() =~= all.take(taken));
            assert(all.take(taken + 1).last() == f);
        }
        let name = f.name.clone();
        match to_field(f, input) {
            Ok(field) => {
                map.insert(name, field);
            },
            Err(e) => {
                assert(all.skip(taken)[0] == all[taken]);
                return Err(e);
            },
        }
        proof {
            assert(all.skip(taken)[0] == all[taken]);
            taken = taken + 1;
        }
    }
    assert(all.take(taken) =~= all);
    Ok(map)
}

/// The cache of a type: none for an input type; else what its first
/// `@cache` directive gives, or why it could not be read.
pub open spec fn type_cache(d: DocType) -> Result<Option<Cache>, String> {
    match d.kind {
        DocKind::InputObject => Ok(None),
        _ => match first_directive(d.directives@, "cache"@) {
            None => Ok(None),
            Some(Ok(c)) => Ok(Some(c)),
            Some(Err(m)) => Err(m),
        },
    }
}

/// The message for a type of a kind that a configuration cannot hold.
pub open spec fn unsupported(kind: Seq<char>) -> Seq<char> {
    "Unsupported type kind: "@ + kind
}

/// Why a type definition cannot be read, if it cannot: its kind, its
/// `@cache` directive, or the first field that cannot be read.
pub open spec fn type_error(d: DocType) -> Option<Seq<char>> {
    match d.kind {
        DocKind::Other(k) => Some(unsupported(k@)),
        _ => match type_cache(d) {
            Err(m) => Some(m@),
            Ok(_) => fields_error(d.fields@),
        },
    }
}

/// Whether `t` is the type of the configuration that the definition `d`
/// gives: its cache and its fields.
pub open spec fn type_from(t: Type1, d: DocType) -> bool {
    &&& type_cache(d) == Ok::<Option<Cache>, String>(t.cache)
    &&& fields_match(t.fields, d.fields@, d.kind is InputObject)
}

/// The type of the configuration that a type definition gives: the fields
/// of an object, an interface or an input type, and the cache of the first
/// two. Fails on another kind of type, or when a directive cannot be read.
fn to_type(d: DocType) -> (r: Result<Type1, String>)
    ensures
        match r {
            Ok(t) => type_error(d) is None && type_from(t, d),
            Err(e) => type_error(d) == Some(e@),
        },
{
    let DocType { name: _, kind, directives, fields } = d;
    match kind {
        DocKind::Other(k) => {
            let m = String::from_str("Unsupported type kind: ").concat(k.as_str());
            Err(m)
        },
        DocKind::InputObject => match to_fields(fields, true) {
            Ok(fs) => Ok(Type1 { fields: fs, cache: None }),
            Err(e) => Err(e),
        },
        _ => {
            let cache = match select_first(directives, "cache") {
                None => None,
                Some(Ok(c)) => Some(c),
                Some(Err(m)) => {
                    return Err(m);
                },
            };
            match to_fields(fields, false) {
                Ok(fs) => Ok(Type1 { fields: fs, cache }),
                Err(e) => Err(e),
            }
        },
    }
}

/// The last type definition named `name`.
pub open spec fn last_type(ts: Seq<DocType>, name: Seq<char>) -> Option<DocType>
    decreases ts.len(),
{
    if ts.len() == 0 {
        None
    } else if ts.last().name@ == name {
        Some(ts.last())
    } else {
        last_type(ts.drop_last(), name)
    }
}

/// Why the first type definition that cannot be read cannot be, if one
/// cannot.
pub open spec fn types_error(ts: Seq<DocType>) -> Option<Seq<char>>
    decreases ts.len(),
{
    if ts.len() == 0 {
        None
    } else {
        match type_error(ts[0]) {
            Some(m) => Some(m),
            None => types_error(ts.drop_first()),
        }
    }
}

/// Whether a map of types holds, for each name, the type that the last
/// definition of that name gives.
pub open spec fn types_match(m: StrMap<Type1>, ts: Seq<DocType>) -> bool {
    forall|n: Seq<char>|
        (#[trigger] m.lookup(n) is Some <==> last_type(ts, n) is Some) && (last_type(ts, n) matches Some(d)
            ==> type_from(m.lookup(n)->0, d))
}

/// The types of a configuration by name; of two with a name the later
/// stays. Fails with the first definition that cannot be read.
fn to_types(ts: Vec<DocType>) -> (r: Result<StrMap<Type1>, String>)
    ensures
        match r {
            Ok(m) => types_error(ts@) is None && types_match(m, ts@),
            Err(e) => types_error(ts@) == Some(e@),
        },
{
    let ghost all = ts@;
    let mut rest = ts;
    let mut map: StrMap<Type1> = StrMap::new();
    let ghost mut taken: int = 0;
    proof {
        assert(all.take(0) =~= Seq::<DocType>::empty());
        assert(all.skip(0) =~= all);
    }
    while rest.len() > 0
        invariant
            all == ts@,
            0 <= taken <= all.len(),
            rest@ == all.skip(taken),
            types_error(all) == types_error(all.skip(taken)),
            types_match(map, all.take(taken)),
        decreases rest.len(),
    {
        let ghost before = rest@;
        let t = rest.remove(0);
        proof {
            assert(before[0] == all[taken]);
            assert(rest@ =~= all.skip(taken + 1));
            assert(all.skip(taken).drop_first() =~= all.skip(taken + 1));
            assert(all.take(taken + 1).drop_last() =~= all.take(taken));
            assert(all.take(taken + 1).last() == t);
            assert(all.skip(taken)[0] == all[taken]);
        }
        let name = t.name.clone();
        match to_type(t) {
            Ok(ty) => {
                map.insert(name, ty);
            },
            Err(e) => {
                return Err(e);
            },
        }
        proof {
            taken = taken + 1;
        }
    }
    assert(all.take(taken) =~= all);
    Ok(map)
}

/// What the last `@server` directive of a schema definition holds.
pub open spec fn server_directive(ds: Seq<(String, SchemaDirective)>) -> Option<Result<Server, String>> {
    match last_directive(ds, "server"@) {
        Some(x) => Some(x.as_server),
        None => None,
    }
}

/// What the last `@upstream` directive of a schema definition holds.
pub open spec fn upstream_directive(ds: Seq<(String, SchemaDirective)>) -> Option<Result<Upstream, String>> {
    match last_directive(ds, "upstream"@) {
        Some(x) => Some(x.as_upstream),
        None => None,
    }
}

/// Takes what the last `@server` and the last `@upstream` directives hold.
fn select_schema_directives(ds: Vec<(String, SchemaDirective)>) -> (r: (
    Option<Result<Server, String>>,
    Option<Result<Upstream, String>>,
))
    ensures
        r.0 == server_directive(ds@),
        r.1 == upstream_directive(ds@),
{
    let ghost all = ds@;
    let mut rest = ds;
    let mut server: Option<Result<Server, String>> = None;
    let mut upstream: Option<Result<Upstream, String>> = None;
    let ghost mut taken: int = 0;
    proof {
        assert(all.take(0) =~= Seq::<(String, SchemaDirective)>::empty());
    }
    while rest.len() > 0
        invariant
            0 <= taken <= all.len(),
            rest@ == all.skip(taken),
            server == server_directive(all.take(taken)),
            upstream == upstream_directive(all.take(taken)),
        decreases rest.len(),
    {
        let ghost before = rest@;
        let (name, d) = rest.remove(0);
        proof {
            assert(before[0] == all[taken]);
            assert(rest@ =~= all.skip(taken + 1));
            assert(all.take(taken + 1).drop_last() =~= all.take(taken));
            assert(all.take(taken + 1).last() == (name, d));
        }
        let SchemaDirective { as_upstream, as_server } = d;
        if str_eq(name.as_str(), "server") {
            server = Some(as_server);
        }
        if str_eq(name.as_str(), "upstream") {
            upstream = Some(as_upstream);
        }
        proof {
            taken = taken + 1;
        }
    }
    assert(all.take(taken) =~= all);
    (server, upstream)
}

/// The `@server` directive of a document: the last one of its schema
/// definition, else one on port 8000.
pub open spec fn schema_server(s: Option<DocSchema>) -> Result<Server, String> {
    match s {
        Some(sd) => match server_directive(sd.directives@) {
            Some(x) => x,
            None => Ok(Server { port: 8000 }),
        },
        None => Ok(Server { port: 8000 }),
    }
}

/// The `@upstream` directive of a document: the last one of its schema
/// definition, else one with neither a base URL nor a cache size.
pub open spec fn schema_upstream(s: Option<DocSchema>) -> Result<Upstream, String> {
    match s {
        Some(sd) => match upstream_directive(sd.directives@) {
            Some(x) => x,
            None => Ok(Upstream { base_url: None, http_cache: None }),
        },
        None => Ok(Upstream { base_url: None, http_cache: None }),
    }
}

/// The root operation types of a document.
pub open spec fn root_schema_of(s: Option<DocSchema>) -> RootSchema {
    match s {
        Some(sd) => RootSchema { query: sd.query, mutation: sd.mutation, subscription: sd.subscription },
        None => RootSchema { query: None, mutation: None, subscription: None },
    }
}

/// Why a document cannot be read, if it cannot: the first type definition
/// that cannot be, else the `@server`, else the `@upstream` directive.
pub open spec fn doc_error(doc: SchemaDocument) -> Option<Seq<char>> {
    match types_error(doc.types@) {
        Some(m) => Some(m),
        None => match schema_server(doc.schema) {
            Err(m) => Some(m@),
            Ok(_) => match schema_upstream(doc.schema) {
                Err(m) => Some(m@),
                Ok(_) => None,
            },
        },
    }
}

/// The configuration that a schema document describes: its types by name,
/// its `@server` and `@upstream` directives, and its root operation types.
/// Fails when a type is of another kind than object, interface or input,
/// or when a directive cannot be read.
pub fn from_doc(doc: SchemaDocument) -> (r: Result<Config, String>)
    ensures
        match r {
            Ok(c) => {
                &&& doc_error(doc) is None
                &&& types_match(c.types, doc.types@)
                &&& schema_server(doc.schema) == Ok::<Server, String>(c.server)
                &&& schema_upstream(doc.schema) == Ok::<Upstream, String>(c.upstream)
                &&& c.schema == root_schema_of(doc.schema)
            },
            Err(e) => doc_error(doc) == Some(e@),
        },
{
    let SchemaDocument { types, schema } = doc;
    let types = match to_types(types) {
        Ok(t) => t,
        Err(e) => {
            return Err(e);
        },
    };
    let (server, upstream, root) = match schema {
        Some(sd) => {
            let DocSchema { directives, query, mutation, subscription } = sd;
            let (s, u) = select_schema_directives(directives);
            (s, u, RootSchema { query, mutation, subscription })
        },
        None => (None, None, RootSchema { query: None, mutation: None, subscription: None }),
    };
    let server = match server {
        Some(Ok(s)) => s,
        Some(Err(e)) => {
            return Err(e);
        },
        None => Server { port: 8000 },
    };
    let upstream = match upstream {
        Some(Ok(u)) => u,
        Some(Err(e)) => {
            return Err(e);
        },
        None => Upstream { base_url: None, http_cache: None },
    };
    Ok(Config { types, upstream, server, schema: root })
}

} // verus!
