use ssdd_on_top::eval_ctx::EvalContext;
use ssdd_on_top::http::{Endpoint, RequestTemplate};
use ssdd_on_top::request_context::RequestContext;
use ssdd_on_top::template::{eval_template, extra_query, is_const_template, render_template};
use ssdd_on_top::value::{JsonValue, Value};

fn text(x: &str) -> String {
    x.to_string()
}

fn object(entries: Vec<(&str, JsonValue)>) -> JsonValue {
    JsonValue::Object(entries.into_iter().map(|(k, v)| (k.to_string(), v)).collect())
}

fn context(rc: &RequestContext) -> EvalContext<'_> {
    EvalContext::new(rc)
        .with_value(Value::new(object(vec![("id", JsonValue::Number(text("7"))), ("ok", JsonValue::Bool(true))])))
        .with_args(Value::new(object(vec![("x", JsonValue::Str(text("hi"))), ("n", JsonValue::Null)])))
}

#[test]
fn templates_are_filled_in() {
    let rc = RequestContext::new();
    let ctx = context(&rc);
    assert_eq!(render_template("http://a/{{.value.id}}/x", &ctx), "http://a/7/x");
    assert_eq!(render_template("{{ .args . x }}-{{.value.ok}}", &ctx), "hi-true");
    assert_eq!(render_template("a{{.args.missing}}b{{.args.n}}c", &ctx), "abc");
    assert_eq!(render_template("a{{.value.id", &ctx), "a{{.value.id");
    assert_eq!(render_template("", &ctx), "");
}

#[test]
fn the_value_of_a_template_is_its_first_segment_that_gives_one() {
    let rc = RequestContext::new();
    let ctx = context(&rc);
    assert_eq!(eval_template("a{{.args.x}}", &ctx), Some(text("a")));
    assert_eq!(eval_template("{{.args.missing}}{{.args.x}}", &ctx), Some(text("hi")));
    assert_eq!(eval_template("{{.args.missing}}", &ctx), None);
    assert_eq!(eval_template("{{.args.n}}", &ctx), Some(text("")));
    assert_eq!(eval_template("{{open", &ctx), Some(text("{{open")));
    assert_eq!(eval_template("", &ctx), None);
}

#[test]
fn constant_templates() {
    assert!(is_const_template("http://a/b"));
    assert!(is_const_template("{{open"));
    assert!(!is_const_template("a{{.value.id}}"));
}

#[test]
fn extra_query_parameters_and_urls() {
    let rc = RequestContext::new();
    let ctx = context(&rc);
    let e = Endpoint::new(text("http://a/{{.value.id}}?k=1&e=")).query(vec![
        (text("id"), text("{{.args.x}}"), false),
        (text("q"), text("{{.args.missing}}"), true),
        (text("z"), text("{{.args.missing}}"), false),
    ]);
    let t = RequestTemplate::from_endpoint(e);
    assert_eq!(extra_query(&t, &ctx), vec![text("id=hi"), text("z=")]);
    assert_eq!(t.url_in(&ctx).unwrap(), "http://a/7?k=1&id=hi&z=");
    let c = RequestTemplate::new("http://a/b?e=");
    assert_eq!(c.url_in(&ctx).unwrap(), "http://a/b?e=");
    let bad = RequestTemplate::new("{{.args.x}}");
    assert!(bad.url_in(&ctx).is_err());
}

#[test]
fn templates_without_expressions_are_constant() {
    let t = RequestTemplate::new("http://a/b");
    assert!(t.is_const());
    let t = RequestTemplate::from_endpoint(Endpoint::new(text("http://a/b")).query(vec![(text("k"), text("v"), false)]));
    assert!(t.is_const());
    let t = RequestTemplate::from_endpoint(Endpoint::new(text("http://a/b")).query(vec![(text("k"), text("{{.args.k}}"), false)]));
    assert!(!t.is_const());
    assert!(!RequestTemplate::new("http://a/{{.value.id}}").is_const());
}
