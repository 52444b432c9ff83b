use ssdd_on_top::blueprint::field_map::FieldHash;
use ssdd_on_top::blueprint::model::{FieldName, TypeName};
use ssdd_on_top::blueprint::builder::is_acyclic_from;
use ssdd_on_top::blueprint::{Blueprint, BlueprintError};
use ssdd_on_top::config::{self, Config, Http, Resolver, RootSchema, Type1};
use ssdd_on_top::eval_ctx::{get_path_value, EvalContext};
use ssdd_on_top::http::Method;
use ssdd_on_top::ir::{IO, IR};
use ssdd_on_top::jit::{
    DocumentOperations, ExecutableDocument, OperationDefinition, OperationType, PathFinder,
    QueryField, Selection, SelectionSet,
};
use ssdd_on_top::map::StrMap;
use ssdd_on_top::request_context::RequestContext;
use ssdd_on_top::resolve::{assemble, plan_field, resolve_non_ir};
use ssdd_on_top::value::{JsonValue, Value};
use ssdd_on_top::wrapping_type::Type;

fn text(x: &str) -> String {
    x.to_string()
}

fn named(n: &str) -> Type {
    Type::Named { name: text(n), non_null: false }
}

fn list(t: Type) -> Type {
    Type::List { of_type: Box::new(t), non_null: false }
}

fn http(path: &str, base: Option<&str>) -> Option<Resolver> {
    Some(Resolver::Http(Http { path: text(path), method: Method::GET, base_url: base.map(text), query: vec![] }))
}

fn cfield(ty: Type, resolver: Option<Resolver>) -> config::Field {
    config::Field { ty_of: ty, resolver, args: StrMap::new() }
}

fn make_config(types: Vec<(&str, Vec<(&str, config::Field)>)>, base: Option<&str>, query: Option<&str>) -> Config {
    let mut map = StrMap::new();
    for (name, fields) in types {
        let mut fm = StrMap::new();
        for (fname, f) in fields {
            fm.insert(text(fname), f);
        }
        map.insert(text(name), Type1 { fields: fm, cache: None });
    }
    Config {
        types: map,
        upstream: config::Upstream { base_url: base.map(text), http_cache: None },
        server: config::Server { port: 8080 },
        schema: RootSchema { query: query.map(text), mutation: None, subscription: None },
    }
}

fn posts_config(base: Option<&str>, query: Option<&str>) -> Config {
    make_config(
        vec![
            ("Query", vec![("posts", cfield(list(named("Post")), http("/posts", None)))]),
            ("Post", vec![("id", cfield(named("Int"), None)), ("title", cfield(named("String"), None))]),
        ],
        base,
        query,
    )
}

fn key(field: &str, ty: &str) -> FieldHash {
    FieldHash::new(FieldName(text(field)), TypeName(text(ty)))
}

fn object(entries: Vec<(&str, JsonValue)>) -> JsonValue {
    JsonValue::Object(entries.into_iter().map(|(k, v)| (k.to_string(), v)).collect())
}

#[test]
fn blueprint_of_a_schema_compiles_its_resolvers() {
    let cfg = posts_config(Some("http://localhost:3000/"), Some("Query"));
    assert!(is_acyclic_from(&cfg, "Query"));
    let bp = Blueprint::try_from(&cfg).unwrap();
    let posts = bp.fields.get(&key("posts", "Query")).unwrap();
    match &posts.ir {
        Some(IR::IO(IO::Http { req_template })) => {
            assert_eq!(req_template.root_url, "http://localhost:3000/posts");
            assert_eq!(req_template.method, Method::GET);
        }
        None => panic!("the field has a resolver"),
    }
    let title = bp.fields.get(&key("title", "Post")).unwrap();
    assert!(title.ir.is_none());
    assert!(bp.fields.get(&key("title", "Query")).is_none());
    assert_eq!(bp.server.port, 8080);
    assert_eq!(bp.server.host, [127, 0, 0, 1]);
    assert_eq!(bp.upstream.http_cache, 10000);
    assert_eq!(bp.schema.query, Some(text("Query")));
}

#[test]
fn blueprint_errors() {
    let no_query = posts_config(Some("http://localhost:3000"), None);
    assert_eq!(Blueprint::try_from(&no_query).err(), Some(BlueprintError::QueryNotFound));
    let no_base = posts_config(None, Some("Query"));
    assert_eq!(Blueprint::try_from(&no_base).err(), Some(BlueprintError::NoBaseUrl));
    assert_eq!(BlueprintError::NoBaseUrl.message(), "No base URL defined");
    assert_eq!(BlueprintError::QueryNotFound.message(), "Query not found");
}

#[test]
fn a_resolver_base_url_wins_over_the_upstream() {
    let cfg = make_config(
        vec![("Query", vec![("users", cfield(named("User"), http("/users", Some("http://other:1//"))))])],
        Some("http://localhost:3000"),
        Some("Query"),
    );
    let bp = Blueprint::try_from(&cfg).unwrap();
    match &bp.fields.get(&key("users", "Query")).unwrap().ir {
        Some(IR::IO(IO::Http { req_template })) => assert_eq!(req_template.root_url, "http://other:1/users"),
        None => panic!("the field has a resolver"),
    }
}

#[test]
fn cycles_are_found() {
    let cfg = make_config(
        vec![
            ("Query", vec![("post", cfield(named("Post"), None))]),
            ("Post", vec![("user", cfield(named("User"), None))]),
            ("User", vec![("posts", cfield(list(named("Post")), None))]),
        ],
        Some("http://x"),
        Some("Query"),
    );
    assert!(!is_acyclic_from(&cfg, "Query"));
    assert!(is_acyclic_from(&cfg, "Missing"));
}

fn posts_query() -> ExecutableDocument {
    let title = Selection::Field(QueryField {
        name: text("title"),
        arguments: vec![],
        selection_set: SelectionSet { items: vec![] },
    });
    let posts = Selection::Field(QueryField {
        name: text("posts"),
        arguments: vec![(text("limit"), JsonValue::Number(text("2")))],
        selection_set: SelectionSet { items: vec![title] },
    });
    ExecutableDocument {
        operations: DocumentOperations::Single(OperationDefinition {
            ty: OperationType::Query,
            selection_set: SelectionSet { items: vec![posts] },
        }),
    }
}

#[test]
fn path_finder_follows_the_selection() {
    let cfg = posts_config(Some("http://localhost:3000"), Some("Query"));
    let bp = Blueprint::try_from(&cfg).unwrap();
    let fields = PathFinder::new(posts_query(), &bp).exec();
    assert_eq!(fields.fields.len(), 1);
    let posts = &fields.fields[0];
    assert_eq!(posts.name, "posts");
    assert!(posts.ir.is_some());
    assert_eq!(
        posts.args.as_ref().unwrap().serde(),
        &object(vec![("limit", JsonValue::Number(text("2")))])
    );
    assert_eq!(posts.nested.len(), 1);
    assert_eq!(posts.nested[0].name, "title");
    assert!(posts.nested[0].ir.is_none());
}

#[test]
fn finalize_shapes_the_response() {
    let cfg = posts_config(Some("http://localhost:3000"), Some("Query"));
    let bp = Blueprint::try_from(&cfg).unwrap();
    let mut fields = PathFinder::new(posts_query(), &bp).exec();
    fields.fields[0].resolved = Some(Value::new(JsonValue::Array(vec![
        object(vec![("id", JsonValue::Number(text("1"))), ("title", JsonValue::Str(text("a")))]),
        object(vec![("id", JsonValue::Number(text("2")))]),
    ])));
    let out = fields.to_borrowed().finalize();
    let expected = object(vec![(
        "data",
        object(vec![(
            "posts",
            JsonValue::Array(vec![
                object(vec![("title", JsonValue::Str(text("a")))]),
                object(vec![("title", JsonValue::Null)]),
            ]),
        )]),
    )]);
    assert_eq!(out, expected);
}

#[test]
fn mutations_select_nothing() {
    let cfg = posts_config(Some("http://localhost:3000"), Some("Query"));
    let bp = Blueprint::try_from(&cfg).unwrap();
    let doc = ExecutableDocument {
        operations: DocumentOperations::Single(OperationDefinition {
            ty: OperationType::Mutation,
            selection_set: SelectionSet { items: vec![] },
        }),
    };
    assert!(PathFinder::new(doc, &bp).exec().fields.is_empty());
}

#[test]
fn plan_of_a_field_without_resolver() {
    let rc = RequestContext::new();
    let ctx = EvalContext::new(&rc).with_value(Value::new(JsonValue::Bool(true)));
    let plan = plan_field(ctx, false, &Some(Value::new(JsonValue::Null)), &None);
    assert!(plan.contexts.is_empty());
    assert!(!plan.spread);
    assert_eq!(plan.next.graphql_ctx_value.as_ref().unwrap().serde(), &JsonValue::Bool(true));
    assert!(plan.next.graphql_ctx_args.is_none());
}

#[test]
fn plan_over_an_array_parent() {
    let rc = RequestContext::new();
    let ctx = EvalContext::new(&rc);
    let parent = Some(Value::new(JsonValue::Array(vec![JsonValue::Number(text("1")), JsonValue::Number(text("2"))])));
    let args = Some(Value::new(object(vec![("id", JsonValue::Number(text("9")))])));
    let plan = plan_field(ctx, true, &args, &parent);
    assert!(plan.spread);
    assert_eq!(plan.contexts.len(), 2);
    assert_eq!(plan.contexts[0].graphql_ctx_value.as_ref().unwrap().serde(), &JsonValue::Number(text("1")));
    assert_eq!(plan.contexts[1].graphql_ctx_value.as_ref().unwrap().serde(), &JsonValue::Number(text("2")));
    assert_eq!(
        plan.contexts[1].graphql_ctx_args.as_ref().unwrap().serde(),
        &object(vec![("id", JsonValue::Number(text("9")))])
    );
    assert_eq!(plan.next.graphql_ctx_value.as_ref().unwrap().serde(), &JsonValue::Number(text("2")));
}

#[test]
fn plan_over_a_single_parent_and_without_parent() {
    let rc = RequestContext::new();
    let plan = plan_field(EvalContext::new(&rc), true, &None, &Some(Value::new(JsonValue::Str(text("p")))));
    assert!(!plan.spread);
    assert_eq!(plan.contexts.len(), 1);
    assert_eq!(plan.contexts[0].graphql_ctx_value.as_ref().unwrap().serde(), &JsonValue::Str(text("p")));
    let plan = plan_field(EvalContext::new(&rc), true, &None, &None);
    assert_eq!(plan.contexts.len(), 1);
    assert!(plan.contexts[0].graphql_ctx_value.is_none());
    assert!(plan.next.graphql_ctx_value.is_none());
}

#[test]
fn results_are_assembled() {
    let one = assemble(false, vec![Value::new(JsonValue::Bool(true))]);
    assert_eq!(one.serde(), &JsonValue::Bool(true));
    let many = assemble(true, vec![Value::new(JsonValue::Null), Value::new(JsonValue::Bool(false))]);
    assert_eq!(many.serde(), &JsonValue::Array(vec![JsonValue::Null, JsonValue::Bool(false)]));
    let none = assemble(true, vec![]);
    assert_eq!(none.serde(), &JsonValue::Array(vec![]));
}

#[test]
fn values_of_fields_without_resolver() {
    let v = JsonValue::Array(vec![
        object(vec![("a", JsonValue::Number(text("1"))), ("b", JsonValue::Null)]),
        object(vec![("b", JsonValue::Null)]),
        JsonValue::Str(text("s")),
    ]);
    let expected = JsonValue::Array(vec![
        object(vec![("a", JsonValue::Number(text("1")))]),
        object(vec![]),
        JsonValue::Str(text("s")),
    ]);
    assert_eq!(resolve_non_ir(&v, "a"), expected);
}

#[test]
fn min_max_age_keeps_the_smallest() {
    let mut rc = RequestContext::new();
    assert_eq!(rc.get_min_max_age(), None);
    rc.set_min_max_age(60);
    rc.set_min_max_age(120);
    assert_eq!(rc.get_min_max_age(), Some(60));
    rc.set_min_max_age(-5);
    assert_eq!(rc.get_min_max_age(), Some(-5));
    assert_eq!(rc.is_cache_public(), None);
    rc.set_cache_public_false();
    assert_eq!(rc.is_cache_public(), Some(false));
}

#[test]
fn eval_context_paths() {
    let rc = RequestContext::new();
    let ctx = EvalContext::new(&rc);
    assert_eq!(ctx.path_value(&[text("a")]).unwrap().serde(), &JsonValue::Null);
    assert!(ctx.path_arg(&[text("a")]).is_none());
    let ctx = ctx
        .with_value(Value::new(object(vec![("a", JsonValue::Bool(true))])))
        .with_args(Value::new(object(vec![("id", JsonValue::Number(text("3")))])));
    assert_eq!(ctx.path_value(&[text("a")]).unwrap().serde(), &JsonValue::Bool(true));
    assert!(ctx.path_value(&[text("b")]).is_none());
    assert_eq!(ctx.path_arg(&[text("id")]).unwrap().serde(), &JsonValue::Number(text("3")));
}

#[test]
fn str_map_reads_what_was_written() {
    let mut m: StrMap<String> = StrMap::new();
    assert!(m.is_empty());
    m.insert(text("b"), text("1"));
    m.insert(text("a"), text("2"));
    m.insert(text("b"), text("3"));
    assert_eq!(m.len(), 2);
    assert_eq!(m.get("b"), Some(&text("3")));
    assert_eq!(m.get("a"), Some(&text("2")));
    assert_eq!(m.get("c"), None);
    assert!(m.contains_key("a"));
    assert_eq!(m.key_at(0), "a");
    assert_eq!(m.value_at(1), "3");
}

#[test]
fn type_fields_keep_the_last_of_a_name() {
    let t = Type1 { fields: StrMap::new(), cache: None };
    assert!(t.scalar());
    let t = t.fields(vec![
        (text("x"), cfield(named("Int"), None)),
        (text("x"), cfield(named("String"), None)),
    ]);
    assert!(!t.scalar());
    assert_eq!(t.fields.len(), 1);
    assert_eq!(t.fields.get("x").unwrap().ty_of.name(), "String");
}

#[test]
fn max_age_reports_in_any_order_agree() {
    let mut a = RequestContext::new();
    a.set_min_max_age(120);
    a.set_min_max_age(60);
    let mut b = RequestContext::new();
    b.set_min_max_age(60);
    b.set_min_max_age(120);
    assert_eq!(a.get_min_max_age(), b.get_min_max_age());
    b.set_min_max_age(60);
    assert_eq!(b.get_min_max_age(), Some(60));
}

#[test]
fn following_two_paths_is_following_them_joined() {
    let v = Value::new(object(vec![("a", object(vec![("b", JsonValue::Array(vec![JsonValue::Bool(true)]))]))]));
    let first = get_path_value(&v, &[text("a")]).unwrap();
    let then = get_path_value(&first, &[text("b"), text("0")]).unwrap();
    let joined = get_path_value(&v, &[text("a"), text("b"), text("0")]).unwrap();
    assert_eq!(then.serde(), joined.serde());
    assert_eq!(joined.serde(), &JsonValue::Bool(true));
}

#[test]
fn more_fuel_gives_the_same_response() {
    let cfg = posts_config(Some("http://localhost:3000"), Some("Query"));
    let bp = Blueprint::try_from(&cfg).unwrap();
    let mut fields = PathFinder::new(posts_query(), &bp).exec();
    fields.fields[0].resolved = Some(Value::new(JsonValue::Array(vec![object(vec![(
        "title",
        JsonValue::Str(text("a")),
    )])])));
    let borrowed = fields.to_borrowed();
    assert_eq!(borrowed.finalize_bounded(1), None);
    let small = borrowed.finalize_bounded(10).unwrap();
    assert_eq!(Some(small), borrowed.finalize_bounded(usize::MAX));
}

#[test]
fn plan_query_needs_a_query_type() {
    use_plan_query();
}

fn use_plan_query() {
    let cfg = posts_config(Some("http://localhost:3000"), Some("Query"));
    let bp = Blueprint::try_from(&cfg).unwrap();
    let fields = ssdd_on_top::jit::plan_query(posts_query(), &bp).unwrap();
    assert_eq!(fields.fields.len(), 1);
    assert_eq!(fields.fields[0].name, "posts");
    let mut bp = bp;
    bp.schema.query = None;
    assert!(ssdd_on_top::jit::plan_query(posts_query(), &bp).is_none());
}

#[test]
fn request_bodies_give_their_query() {
    let q = ssdd_on_top::request::request_query_text(br#"{"query": "{ posts { title } }"}"#).unwrap();
    assert_eq!(q, "{ posts { title } }");
    assert_eq!(ssdd_on_top::request::request_query_text(b"{}").unwrap(), "");
    assert!(ssdd_on_top::request::request_query_text(b"not json").is_err());
}
