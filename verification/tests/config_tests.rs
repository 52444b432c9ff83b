use ssdd_on_top::config::{Cache, Http, Resolver, Server, Upstream};
use ssdd_on_top::from_doc::{
    from_doc, select_first, select_last, DocArg, DocField, DocKind, DocSchema, DocType,
    SchemaDirective, SchemaDocument,
};
use ssdd_on_top::http::Method;
use ssdd_on_top::value::JsonValue;
use ssdd_on_top::wrapping_type::Type;

fn text(x: &str) -> String {
    x.to_string()
}

fn named(n: &str) -> Type {
    Type::Named { name: text(n), non_null: true }
}

fn http(path: &str) -> Http {
    Http { path: text(path), method: Method::GET, base_url: None, query: vec![] }
}

fn field(name: &str, ty: &str, directives: Vec<(String, Result<Http, String>)>) -> DocField {
    DocField { name: text(name), ty: named(ty), args: vec![], directives }
}

fn object(name: &str, fields: Vec<DocField>) -> DocType {
    DocType { name: text(name), kind: DocKind::Object, directives: vec![], fields }
}

fn schema_with(directives: Vec<(String, SchemaDirective)>) -> Option<DocSchema> {
    Some(DocSchema { directives, query: Some(text("Query")), mutation: None, subscription: None })
}

#[test]
fn first_and_last_directives_are_selected() {
    let ds = vec![(text("a"), 1), (text("b"), 2), (text("a"), 3)];
    assert_eq!(select_first(ds, "a"), Some(1));
    let ds = vec![(text("a"), 1), (text("b"), 2), (text("a"), 3)];
    assert_eq!(select_last(ds, "a"), Some(3));
    let ds: Vec<(String, u8)> = vec![(text("a"), 1)];
    assert_eq!(select_last(ds, "c"), None);
}

#[test]
fn a_document_gives_its_types_fields_and_resolvers() {
    let posts = DocField {
        name: text("posts"),
        ty: Type::List { of_type: Box::new(named("Post")), non_null: false },
        args: vec![
            DocArg { name: text("limit"), ty: named("Int"), default_value: Some(JsonValue::Number(text("10"))) },
            DocArg { name: text("limit"), ty: named("String"), default_value: None },
        ],
        directives: vec![(text("other"), Err(text("not http"))), (text("http"), Ok(http("/posts"))), (text("http"), Ok(http("/ignored")))],
    };
    let query = object("Query", vec![posts]);
    let post = DocType {
        name: text("Post"),
        kind: DocKind::Object,
        directives: vec![(text("cache"), Ok(Cache { max_age: 3000 }))],
        fields: vec![field("id", "Int", vec![]), field("id", "ID", vec![])],
    };
    let input = DocType {
        name: text("Filter"),
        kind: DocKind::InputObject,
        directives: vec![(text("cache"), Err(text("never read")))],
        fields: vec![field("q", "String", vec![])],
    };
    let doc = SchemaDocument {
        types: vec![query, post, input],
        schema: schema_with(vec![(
            text("upstream"),
            SchemaDirective {
                as_upstream: Ok(Upstream { base_url: Some(text("http://x")), http_cache: Some(5) }),
                as_server: Err(text("not a server")),
            },
        )]),
    };
    let config = from_doc(doc).unwrap();
    assert_eq!(config.types.len(), 3);
    let q = config.types.get("Query").unwrap();
    let posts = q.fields.get("posts").unwrap();
    match &posts.resolver {
        Some(Resolver::Http(h)) => assert_eq!(h.path, "/posts"),
        None => panic!("posts has a resolver"),
    }
    assert_eq!(posts.args.len(), 1);
    assert_eq!(posts.args.get("limit").unwrap().type_of.name(), "String");
    let post = config.types.get("Post").unwrap();
    assert_eq!(post.cache.as_ref().unwrap().max_age, 3000);
    assert_eq!(post.fields.get("id").unwrap().ty_of.name(), "ID");
    assert!(post.fields.get("id").unwrap().resolver.is_none());
    let filter = config.types.get("Filter").unwrap();
    assert!(filter.cache.is_none());
    assert_eq!(config.upstream.base_url, Some(text("http://x")));
    assert_eq!(config.upstream.http_cache, Some(5));
    assert_eq!(config.server.port, 8000);
    assert_eq!(config.schema.query, Some(text("Query")));
}

#[test]
fn the_last_schema_directive_of_a_name_is_read() {
    let d = |port: u16| SchemaDirective { as_upstream: Err(text("no")), as_server: Ok(Server { port }) };
    let doc = SchemaDocument {
        types: vec![],
        schema: schema_with(vec![(text("server"), d(1)), (text("server"), d(2))]),
    };
    let config = from_doc(doc).unwrap();
    assert_eq!(config.server.port, 2);
    assert!(config.upstream.base_url.is_none());
    let none = from_doc(SchemaDocument { types: vec![], schema: None }).unwrap();
    assert_eq!(none.server.port, 8000);
    assert!(none.schema.query.is_none());
}

#[test]
fn documents_that_cannot_be_read() {
    let scalar = DocType { name: text("Date"), kind: DocKind::Other(text("Scalar")), directives: vec![], fields: vec![] };
    let bad_field = object("Query", vec![field("a", "Int", vec![(text("http"), Err(text("missing field `path`")))])]);
    let doc = SchemaDocument { types: vec![bad_field, scalar], schema: None };
    assert_eq!(from_doc(doc).err(), Some(text("missing field `path`")));
    let scalar = DocType { name: text("Date"), kind: DocKind::Other(text("Scalar")), directives: vec![], fields: vec![] };
    let doc = SchemaDocument { types: vec![scalar], schema: None };
    assert_eq!(from_doc(doc).err(), Some(text("Unsupported type kind: Scalar")));
    let bad_cache = DocType {
        name: text("T"),
        kind: DocKind::Interface,
        directives: vec![(text("cache"), Err(text("bad cache")))],
        fields: vec![],
    };
    let doc = SchemaDocument { types: vec![bad_cache], schema: None };
    assert_eq!(from_doc(doc).err(), Some(text("bad cache")));
    let doc = SchemaDocument {
        types: vec![],
        schema: schema_with(vec![(
            text("server"),
            SchemaDirective { as_upstream: Ok(Upstream { base_url: None, http_cache: None }), as_server: Err(text("bad port")) },
        )]),
    };
    assert_eq!(from_doc(doc).err(), Some(text("bad port")));
}
