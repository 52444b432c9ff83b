use ssdd_on_top::http::{query_string, route, Endpoint, Method, RequestTemplate, Route};

fn text(x: &str) -> String {
    x.to_string()
}

#[test]
fn method_names_round_trip() {
    let all = [
        Method::GET,
        Method::POST,
        Method::PUT,
        Method::PATCH,
        Method::DELETE,
        Method::HEAD,
        Method::OPTIONS,
        Method::CONNECT,
        Method::TRACE,
    ];
    for m in all {
        assert_eq!(Method::from_name(m.as_str()), Some(m));
    }
    assert_eq!(Method::PATCH.as_str(), "PATCH");
    assert_eq!(Method::from_name("get"), None);
    assert_eq!(Method::from_name(""), None);
    assert_eq!(Method::default(), Method::GET);
}

#[test]
fn requests_are_routed_by_method() {
    assert_eq!(route(Method::GET), Route::Playground);
    assert_eq!(route(Method::POST), Route::GraphQL);
    assert_eq!(route(Method::PUT), Route::MethodNotAllowed);
    assert_eq!(route(Method::TRACE), Route::MethodNotAllowed);
}

#[test]
fn endpoint_defaults_and_setters() {
    let e = Endpoint::new(text("http://a/b"));
    assert_eq!(e.path, "http://a/b");
    assert!(e.query.is_empty());
    assert_eq!(e.method, Method::GET);
    let e = e.method(Method::POST).query(vec![(text("k"), text("{{.args.id}}"), true)]).path(text("/x"));
    assert_eq!(e.path, "/x");
    assert_eq!(e.method, Method::POST);
    assert_eq!(e.query.len(), 1);
}

#[test]
fn request_template_of_an_endpoint() {
    let e = Endpoint::new(text("http://a/posts"))
        .query(vec![(text("id"), text("{{.value.id}}"), false), (text("q"), text("x"), true)])
        .method(Method::DELETE);
    let t = RequestTemplate::from_endpoint(e);
    assert_eq!(t.root_url, "http://a/posts");
    assert_eq!(t.method, Method::DELETE);
    assert_eq!(t.query.len(), 2);
    assert_eq!(t.query[0].key, "id");
    assert_eq!(t.query[0].value, "{{.value.id}}");
    assert!(!t.query[0].skip_empty);
    assert!(t.query[1].skip_empty);
    let c = t.clone();
    assert_eq!(c.query[1].key, "q");
    let n = RequestTemplate::new("http://b");
    assert_eq!(n.root_url, "http://b");
    assert_eq!(n.method, Method::GET);
    assert!(n.query.is_empty());
}

#[test]
fn query_string_joins_pairs_with_values_and_extra_parameters() {
    let base = vec![(text("a"), text("1")), (text("b"), text("")), (text("c"), text("3"))];
    let extra = vec![text("d=4"), text(""), text("e=5")];
    assert_eq!(query_string(&base, &extra), Some(text("a=1&c=3&d=4&e=5")));
    assert_eq!(query_string(&vec![], &vec![]), None);
    assert_eq!(query_string(&vec![(text("x"), text(""))], &vec![text("")]), None);
    assert_eq!(query_string(&vec![], &vec![text(""), text("k=v")]), Some(text("k=v")));
}

#[test]
fn urls_are_made_from_templates() {
    let t = RequestTemplate::new("http://a/b");
    let u = t.create_url("http://a/b?x=1", true, &vec![]).unwrap();
    assert_eq!(u.as_str(), "http://a/b?x=1");
    assert!(t.create_url("not a url", true, &vec![]).is_err());
    let e = Endpoint::new(text("http://a/b")).query(vec![(text("z"), text("{{.args.z}}"), false)]);
    let t = RequestTemplate::from_endpoint(e);
    let u = t.create_url("http://a/b?x=1&y=", true, &vec![text("z=2")]).unwrap();
    assert_eq!(u.as_str(), "http://a/b?x=1&z=2");
    let u = t.create_url("http://a/b?y=", true, &vec![]).unwrap();
    assert_eq!(u.as_str(), "http://a/b");
}

#[test]
fn a_constant_template_without_query_keeps_its_url() {
    let t = RequestTemplate::new("http://a.com/x?a=1&b=");
    let u = t.create_url("http://a.com/x?a=1&b=", true, &vec![]).unwrap();
    assert_eq!(u, "http://a.com/x?a=1&b=");
    let u = t.create_url("HTTP://A.com/x?a=1&b=", false, &vec![]).unwrap();
    assert_eq!(u, "http://a.com/x?a=1");
}
