use ssdd_on_top::introspection::{compare, introspection_step, query_builder, IntrospectionStep};
use ssdd_on_top::query_info::{
    Argument, Field, FieldType, QueryType, Schema, SchemaData, SchemaType,
};
use ssdd_on_top::type_info;

fn text(x: &str) -> String {
    x.to_string()
}

fn named(kind: &str, name: &str) -> FieldType {
    FieldType { kind: text(kind), name: Some(text(name)), of_type: None }
}

fn wrapping(kind: &str, inner: FieldType) -> FieldType {
    FieldType { kind: text(kind), name: None, of_type: Some(Box::new(inner)) }
}

fn argument(name: &str, default: Option<&str>) -> Argument {
    Argument { name: text(name), arg_type: named("SCALAR", "Int"), default_value: default.map(text) }
}

fn field(name: &str, ty: FieldType, args: Vec<Argument>) -> Field {
    Field::new(text(name), ty, args)
}

fn schema(fields: Vec<Field>) -> Schema {
    Schema { data: SchemaData { schema: SchemaType { query_type: QueryType::new(fields) } } }
}

fn names(fields: &[Field]) -> Vec<&str> {
    fields.iter().map(|f| f.name.as_str()).collect()
}

#[test]
fn get_name_goes_down_to_the_named_type() {
    let t = wrapping("NON_NULL", wrapping("LIST", named("OBJECT", "Post")));
    assert_eq!(t.get_name(), Some(text("Post")));
    let empty = FieldType { kind: text("LIST"), name: Some(text("")), of_type: Some(Box::new(named("SCALAR", "Int"))) };
    assert_eq!(empty.get_name(), Some(text("Int")));
    let nothing = FieldType { kind: text("LIST"), name: Some(text("")), of_type: None };
    assert_eq!(nothing.get_name(), None);
    assert_eq!(named("OBJECT", "User").get_name(), Some(text("User")));
}

#[test]
fn fields_and_arguments_are_read_in_order_of_name() {
    let f = field("posts", named("OBJECT", "Post"), vec![argument("b", None), argument("a", None), argument("b", Some("2"))]);
    let arg_names: Vec<&str> = f.args.iter().map(|a| a.name.as_str()).collect();
    assert_eq!(arg_names, vec!["a", "b", "b"]);
    assert_eq!(f.args[1].default_value, None);
    assert_eq!(f.args[2].default_value, Some(text("2")));
    let q = QueryType::new(vec![
        field("users", named("OBJECT", "User"), vec![]),
        field("post", named("OBJECT", "Post"), vec![]),
        field("Zeta", named("OBJECT", "Z"), vec![]),
    ]);
    assert_eq!(names(&q.fields), vec!["Zeta", "post", "users"]);
}

#[test]
fn the_written_form_orders_fields_and_arguments() {
    let raw = QueryType {
        fields: vec![
            Field { name: text("b"), field_type: named("OBJECT", "B"), args: vec![argument("y", None), argument("x", None)] },
            Field { name: text("a"), field_type: named("OBJECT", "A"), args: vec![] },
        ],
    };
    let n = raw.into_normal();
    assert_eq!(names(&n.fields), vec!["a", "b"]);
    let arg_names: Vec<&str> = n.fields[1].args.iter().map(|a| a.name.as_str()).collect();
    assert_eq!(arg_names, vec!["x", "y"]);
}

#[test]
fn answers_that_differ_only_in_order_compare_equal() {
    let a = schema(vec![
        field("users", named("OBJECT", "User"), vec![argument("id", None)]),
        field("posts", named("OBJECT", "Post"), vec![]),
    ]);
    let b = schema(vec![
        field("posts", named("OBJECT", "Post"), vec![]),
        field("users", named("OBJECT", "User"), vec![argument("id", None)]),
    ]);
    assert_eq!(compare(a, b, "Query Operation type mismatch"), Ok(()));
}

#[test]
fn answers_that_differ_are_reported_with_the_message() {
    let a = schema(vec![field("users", named("OBJECT", "User"), vec![])]);
    let b = schema(vec![field("users", named("OBJECT", "Person"), vec![])]);
    assert_eq!(compare(a, b, "Query Operation type mismatch"), Err(text("Query Operation type mismatch")));
    let c = schema(vec![field("users", named("OBJECT", "User"), vec![argument("id", Some("1"))])]);
    let d = schema(vec![field("users", named("OBJECT", "User"), vec![argument("id", None)])]);
    assert!(compare(c, d, "m").is_err());
}

#[test]
fn type_query_text() {
    let expected = "\n        {\n          __type(name: \"Post\") {\n            name\n            kind\n            fields {\n              name\n              args {\n                name\n              }\n            }\n          }\n        }\n        ";
    assert_eq!(query_builder("Post"), expected);
}

#[test]
fn introspection_steps() {
    let actual = schema(vec![
        field("a", named("OBJECT", "A"), vec![]),
        field("b", FieldType { kind: text("SCALAR"), name: None, of_type: None }, vec![]),
    ]);
    let expected = schema(vec![
        field("a", wrapping("NON_NULL", named("OBJECT", "A2")), vec![]),
        field("b", named("SCALAR", "Int"), vec![]),
        field("c", named("SCALAR", "Int"), vec![]),
    ]);
    match introspection_step(&actual, &expected, 0) {
        IntrospectionStep::Compare { actual: x, expected: y } => {
            assert_eq!(x, query_builder("A"));
            assert_eq!(y, query_builder("A2"));
        }
        _ => panic!("expected a comparison"),
    }
    match introspection_step(&actual, &expected, 1) {
        IntrospectionStep::Mismatch(name) => assert_eq!(name, "b"),
        _ => panic!("expected a mismatch"),
    }
    assert!(matches!(introspection_step(&actual, &expected, 2), IntrospectionStep::Done));
}

#[test]
fn type_answers_are_read_in_order() {
    let f = type_info::Field::new(text("posts"), vec![text("z"), text("a"), text("m")]);
    assert_eq!(f.args(), &vec![text("a"), text("m"), text("z")]);
    let t = type_info::Type::new(
        text("User"),
        text("OBJECT"),
        vec![type_info::Field::new(text("name"), vec![]), type_info::Field::new(text("id"), vec![])],
    );
    let field_names: Vec<&str> = t.fields().iter().map(|f| f.name().as_str()).collect();
    assert_eq!(field_names, vec!["id", "name"]);
    assert_eq!(t.name(), "User");
    assert_eq!(t.kind(), "OBJECT");
}

fn root(fields: Vec<(&str, Vec<&str>)>) -> type_info::Root {
    let fs = fields
        .into_iter()
        .map(|(n, args)| type_info::Field::new(text(n), args.into_iter().map(text).collect()))
        .collect();
    type_info::Root::new(type_info::Data::new(type_info::Type::new(text("User"), text("OBJECT"), fs)))
}

#[test]
fn type_answers_compare_without_order() {
    let a = root(vec![("id", vec![]), ("posts", vec!["limit", "after"])]);
    let b = root(vec![("posts", vec!["after", "limit"]), ("id", vec![])]);
    assert_eq!(compare(a, b, "Type Defination mismatch"), Ok(()));
    let c = root(vec![("id", vec![])]);
    let d = root(vec![("id", vec!["x"])]);
    assert_eq!(compare(c, d, "Type Defination mismatch"), Err(text("Type Defination mismatch")));
}

fn unordered_schema() -> Schema {
    Schema {
        data: SchemaData {
            schema: SchemaType {
                query_type: QueryType {
                    fields: vec![
                        Field { name: text("z"), field_type: named("OBJECT", "Z"), args: vec![argument("b", None), argument("a", None)] },
                        Field { name: text("m"), field_type: named("OBJECT", "M"), args: vec![] },
                    ],
                },
            },
        },
    }
}

#[test]
fn the_written_form_is_reached_in_one_step() {
    let once = unordered_schema().into_normal();
    let twice = unordered_schema().into_normal().into_normal();
    assert!(once.same(&twice));
    assert!(!once.same(&unordered_schema()));
    let once = root(vec![("b", vec!["y", "x"]), ("a", vec![])]).into_normal();
    let twice = root(vec![("b", vec!["y", "x"]), ("a", vec![])]).into_normal().into_normal();
    assert!(once.same(&twice));
}
