use vstd::prelude::*;

use crate::map::str_eq;

verus! {

/// The method of an HTTP request.
#[derive(Clone, Copy, Debug, PartialEq, Eq, Structural)]
pub enum Method {
    GET,
    POST,
    PUT,
    PATCH,
    DELETE,
    HEAD,
    OPTIONS,
    CONNECT,
    TRACE,
}

impl Default for Method {
    fn default() -> (r: Method)
        ensures
            r == Method::GET,
    {
        Method::GET
    }
}

/// The name of a method, as it is written in a request line.
pub open spec fn method_name(m: Method) -> Seq<char> {
    match m {
        Method::GET => "GET"@,
        Method::POST => "POST"@,
        Method::PUT => "PUT"@,
        Method::PATCH => "PATCH"@,
        Method::DELETE => "DELETE"@,
        Method::HEAD => "HEAD"@,
        Method::OPTIONS => "OPTIONS"@,
        Method::CONNECT => "CONNECT"@,
        Method::TRACE => "TRACE"@,
    }
}

impl Method {
    /// The name of the method, as it is written in a request line.
    pub fn as_str(&self) -> (r: &'static str)
        ensures
            r@ == method_name(*self),
    {
        match self {
            Method::GET => "GET",
            Method::POST => "POST",
            Method::PUT => "PUT",
            Method::PATCH => "PATCH",
            Method::DELETE => "DELETE",
            Method::HEAD => "HEAD",
            Method::OPTIONS => "OPTIONS",
            Method::CONNECT => "CONNECT",
            Method::TRACE => "TRACE",
        }
    }
}

/// Different methods have different names.
pub proof fn lemma_method_name_injective(a: Method, b: Method)
    ensures
        method_name(a) == method_name(b) ==> a == b,
{
    reveal_strlit("GET");
    reveal_strlit("POST");
    reveal_strlit("PUT");
    reveal_strlit("PATCH");
    reveal_strlit("DELETE");
    reveal_strlit("HEAD");
    reveal_strlit("OPTIONS");
    reveal_strlit("CONNECT");
    reveal_strlit("TRACE");
    if method_name(a) == method_name(b) && a != b {
        assert(method_name(a).len() == method_name(b).len());
        assert(method_name(a)[0] == method_name(b)[0]);
        assert(method_name(a)[1] == method_name(b)[1]);
    }
}

impl Method {
    /// The method with the name `name`, if there is one.
    pub fn from_name(name: &str) -> (r: Option<Method>)
        ensures
            r matches Some(m) ==> method_name(m) == name@,
            r is None ==> forall|m: Method| method_name(m) != name@,
            forall|m: Method| method_name(m) == name@ ==> r == Some(m),
    {
        let all = [
            Method::GET,
            Method::POST,
            Method::PUT,
            Method::PATCH,
            Method::DELETE,
            Method::HEAD,
            Method::OPTIONS,
            Method::CONNECT,
            Method::TRACE,
        ];
        let mut i: usize = 0;
        while i < 9
            invariant
                i <= 9,
                all@ == seq![
                    Method::GET,
                    Method::POST,
                    Method::PUT,
                    Method::PATCH,
                    Method::DELETE,
                    Method::HEAD,
                    Method::OPTIONS,
                    Method::CONNECT,
                    Method::TRACE,
                ],
                forall|j: int| 0 <= j < i ==> method_name(#[trigger] all@[j]) != name@,
            decreases 9 - i,
        {
            if str_eq(all[i].as_str(), name) {
                proof {
                    assert forall|m: Method| method_name(m) == name@ implies Some(all@[i as int]) == Some(m) by {
                        lemma_method_name_injective(m, all@[i as int]);
                    }
                }
                return Some(all[i]);
            }
            i = i + 1;
        }
        proof {
            assert forall|m: Method| method_name(m) != name@ by {
                match m {
                    Method::GET => assert(all@[0] == m),
                    Method::POST => assert(all@[1] == m),
                    Method::PUT => assert(all@[2] == m),
                    Method::PATCH => assert(all@[3] == m),
                    Method::DELETE => assert(all@[4] == m),
                    Method::HEAD => assert(all@[5] == m),
                    Method::OPTIONS => assert(all@[6] == m),
                    Method::CONNECT => assert(all@[7] == m),
                    Method::TRACE => assert(all@[8] == m),
                }
            }
        }
        None
    }
}

/// What the gateway answers to a request, by its method.
#[derive(Clone, Copy, Debug, PartialEq, Eq, Structural)]
pub enum Route {
    /// The GraphiQL page, with status 200.
    Playground,
    /// A GraphQL query to run.
    GraphQL,
    /// "Method Not Allowed", with status 405.
    MethodNotAllowed,
}

/// Chooses the answer to a request by its method: `GET` serves the
/// playground, `POST` runs a query, any other method is not allowed.
pub fn route(method: Method) -> (r: Route)
    ensures
        method == Method::GET ==> r == Route::Playground,
        method == Method::POST ==> r == Route::GraphQL,
        method != Method::GET && method != Method::POST ==> r == Route::MethodNotAllowed,
{
    match method {
        Method::GET => Route::Playground,
        Method::POST => Route::GraphQL,
        _ => Route::MethodNotAllowed,
    }
}

/// An upstream endpoint: the URL, the query parameters (key, value template,
/// whether to leave the parameter out when its value is empty) and the method.
pub struct Endpoint {
    pub path: String,
    pub query: Vec<(String, String, bool)>,
    pub method: Method,
}

/// The mathematical form of an [`Endpoint`].
pub struct EndpointView {
    pub path: Seq<char>,
    pub query: Seq<(Seq<char>, Seq<char>, bool)>,
    pub method: Method,
}

/// The mathematical form of the query parameters of an endpoint.
pub open spec fn endpoint_query_view(q: Seq<(String, String, bool)>) -> Seq<
    (Seq<char>, Seq<char>, bool),
> {
    Seq::new(q.len(), |i: int| (q[i].0@, q[i].1@, q[i].2))
}

impl View for Endpoint {
    type V = EndpointView;

    open spec fn view(&self) -> EndpointView {
        EndpointView {
            path: self.path@,
            query: endpoint_query_view(self.query@),
            method: self.method,
        }
    }
}

impl Endpoint {
    /// An endpoint for `url`, with no query parameters and method `GET`.
    pub fn new(url: String) -> (r: Endpoint)
        ensures
            r@ == (EndpointView { path: url@, query: Seq::empty(), method: Method::GET }),
    {
        let r = Endpoint { path: url, query: Vec::new(), method: Method::default() };
        assert(r@.query =~= Seq::<(Seq<char>, Seq<char>, bool)>::empty());
        r
    }

    /// The endpoint with its URL replaced.
    pub fn path(self, value: String) -> (r: Endpoint)
        ensures
            r@ == (EndpointView { path: value@, ..self@ }),
    {
        Endpoint { path: value, ..self }
    }

    /// The endpoint with its query parameters replaced.
    pub fn query(self, value: Vec<(String, String, bool)>) -> (r: Endpoint)
        ensures
            r@ == (EndpointView { query: endpoint_query_view(value@), ..self@ }),
    {
        Endpoint { query: value, ..self }
    }

    /// The endpoint with its method replaced.
    pub fn method(self, value: Method) -> (r: Endpoint)
        ensures
            r@ == (EndpointView { method: value, ..self@ }),
    {
        Endpoint { method: value, ..self }
    }
}

/// A query parameter of a request template: its key, the template of its
/// value, and whether to leave it out when the value is empty.
pub struct Query {
    pub key: String,
    pub value: String,
    pub skip_empty: bool,
}

/// The mathematical form of a [`Query`].
pub struct QueryView {
    pub key: Seq<char>,
    pub value: Seq<char>,
    pub skip_empty: bool,
}

impl View for Query {
    type V = QueryView;

    open spec fn view(&self) -> QueryView {
        QueryView { key: self.key@, value: self.value@, skip_empty: self.skip_empty }
    }
}

impl Clone for Query {
    fn clone(&self) -> (r: Query)
        ensures
            r@ == self@,
    {
        Query { key: self.key.clone(), value: self.value.clone(), skip_empty: self.skip_empty }
    }
}

/// The template of an upstream request: the template of its URL, its query
/// parameters and its method.
pub struct RequestTemplate {
    pub root_url: String,
    pub query: Vec<Query>,
    pub method: Method,
}

/// The mathematical form of a [`RequestTemplate`].
pub struct RequestTemplateView {
    pub root_url: Seq<char>,
    pub query: Seq<QueryView>,
    pub method: Method,
}

/// The views of a sequence of query parameters.
pub open spec fn queries_view(q: Seq<Query>) -> Seq<QueryView> {
    Seq::new(q.len(), |i: int| q[i]@)
}

impl View for RequestTemplate {
    type V = RequestTemplateView;

    open spec fn view(&self) -> RequestTemplateView {
        RequestTemplateView {
            root_url: self.root_url@,
            query: queries_view(self.query@),
            method: self.method,
        }
    }
}

/// The request template of an endpoint: the URL becomes the template of the
/// URL, each query parameter a query parameter of the template.
pub open spec fn template_of_endpoint(e: EndpointView) -> RequestTemplateView {
    RequestTemplateView {
        root_url: e.path,
        query: Seq::new(
            e.query.len(),
            |i: int| QueryView { key: e.query[i].0, value: e.query[i].1, skip_empty: e.query[i].2 },
        ),
        method: e.method,
    }
}

impl RequestTemplate {
    /// The request template of an endpoint.
    pub fn from_endpoint(endpoint: Endpoint) -> (r: RequestTemplate)
        ensures
            r@ == template_of_endpoint(endpoint@),
    {
        let ghost e = endpoint@;
        let mut query: Vec<Query> = Vec::new();
        let mut i: usize = 0;
        while i < endpoint.query.len()
            invariant
                e == endpoint@,
                i <= endpoint.query.len(),
                query.len() == i,
                forall|j: int|
                    0 <= j < i ==> #[trigger] query@[j]@ == template_of_endpoint(e).query[j],
            decreases endpoint.query.len() - i,
        {
            let k = endpoint.query[i].0.clone();
            let v = endpoint.query[i].1.clone();
            query.push(Query { key: k, value: v, skip_empty: endpoint.query[i].2 });
            i = i + 1;
        }
        let r = RequestTemplate { root_url: endpoint.path, query, method: endpoint.method };
        assert(r@.query =~= template_of_endpoint(e).query);
        r
    }

    /// A `GET` template for `root_url`, with no query parameters.
    pub fn new(root_url: &str) -> (r: RequestTemplate)
        ensures
            r@ == (RequestTemplateView {
                root_url: root_url@,
                query: Seq::empty(),
                method: Method::GET,
            }),
    {
        let r = RequestTemplate {
            root_url: String::from_str(root_url),
            query: Vec::new(),
            method: Method::GET,
        };
        assert(r@.query =~= Seq::<QueryView>::empty());
        r
    }
}

impl Clone for RequestTemplate {
    fn clone(&self) -> (r: RequestTemplate)
        ensures
            r@ == self@,
    {
        let mut query: Vec<Query> = Vec::new();
        let mut i: usize = 0;
        while i < self.query.len()
            invariant
                i <= self.query.len(),
                query.len() == i,
                forall|j: int| 0 <= j < i ==> #[trigger] query@[j]@ == self.query@[j]@,
            decreases self.query.len() - i,
        {
            query.push(self.query[i].clone());
            i = i + 1;
        }
        let r = RequestTemplate { root_url: self.root_url.clone(), query, method: self.method };
        assert(r@.query =~= self@.query);
        r
    }
}

/// Texts joined by `&` as a query string is folded together: each text is
/// added after an `&`, an empty one is left out, and the first non-empty one
/// starts the string.
pub open spec fn join_nonempty(items: Seq<Seq<char>>) -> Seq<char>
    decreases items.len(),
{
    if items.len() == 0 {
        Seq::empty()
    } else {
        let acc = join_nonempty(items.drop_last());
        let item = items.last();
        if acc.len() == 0 {
            item
        } else if item.len() == 0 {
            acc
        } else {
            acc + "&"@ + item
        }
    }
}

/// The pairs of a URL's query whose value is not empty, each written
/// `key=value`.
pub open spec fn pair_items(pairs: Seq<(Seq<char>, Seq<char>)>) -> Seq<Seq<char>>
    decreases pairs.len(),
{
    if pairs.len() == 0 {
        Seq::empty()
    } else {
        let rest = pair_items(pairs.drop_last());
        let (k, v) = pairs.last();
        if v.len() == 0 {
            rest
        } else {
            rest.push(k + "="@ + v)
        }
    }
}

/// The mathematical form of key-value pairs.
pub open spec fn pairs_view(pairs: Seq<(String, String)>) -> Seq<(Seq<char>, Seq<char>)> {
    Seq::new(pairs.len(), |i: int| (pairs[i].0@, pairs[i].1@))
}

/// The mathematical form of texts.
pub open spec fn texts_view(items: Seq<String>) -> Seq<Seq<char>> {
    Seq::new(items.len(), |i: int| items[i]@)
}

/// The query string of a URL: the pairs already in the URL that have a
/// value, then the extra parameters, joined by `&` with empty ones left out;
/// none when that is empty.
pub fn query_string(base: &Vec<(String, String)>, extra: &Vec<String>) -> (r: Option<String>)
    ensures
        ({
            let q = join_nonempty(pair_items(pairs_view(base@)) + texts_view(extra@));
            &&& r is None <==> q.len() == 0
            &&& r matches Some(s) ==> s@ == q
        }),
{
    let mut items: Vec<String> = Vec::new();
    let mut i: usize = 0;
    while i < base.len()
        invariant
            i <= base.len(),
            texts_view(items@) == pair_items(pairs_view(base@.take(i as int))),
        decreases base.len() - i,
    {
        proof {
            assert(pairs_view(base@.take(i + 1)).drop_last() =~= pairs_view(base@.take(i as int)));
            assert(pairs_view(base@.take(i + 1)).last() == (base@[i as int].0@, base@[i as int].1@));
        }
        if !base[i].1.as_str().is_empty() {
            let item = base[i].0.clone().concat("=").concat(base[i].1.as_str());
            let ghost before = texts_view(items@);
            items.push(item);
            assert(texts_view(items@) =~= before.push(item@));
        }
        i = i + 1;
    }
    assert(base@.take(base.len() as int) =~= base@);
    let ghost base_items = texts_view(items@);
    let mut j: usize = 0;
    while j < extra.len()
        invariant
            j <= extra.len(),
            texts_view(items@) == base_items + texts_view(extra@.take(j as int)),
        decreases extra.len() - j,
    {
        let ghost before = texts_view(items@);
        let c = extra[j].clone();
        items.push(c);
        proof {
            assert(texts_view(items@) =~= before.push(c@));
            assert(texts_view(extra@.take(j + 1)) =~= texts_view(extra@.take(j as int)).push(extra@[j as int]@));
            assert(texts_view(items@) =~= base_items + texts_view(extra@.take(j + 1)));
        }
        j = j + 1;
    }
    assert(extra@.take(extra.len() as int) =~= extra@);
    let ghost all = texts_view(items@);
    let mut acc = String::new();
    let mut k: usize = 0;
    while k < items.len()
        invariant
            k <= items.len(),
            all == texts_view(items@),
            acc@ == join_nonempty(all.take(k as int)),
        decreases items.len() - k,
    {
        proof {
            assert(all.take(k + 1).drop_last() =~= all.take(k as int));
            assert(all.take(k + 1).last() == items@[k as int]@);
        }
        if acc.as_str().is_empty() {
            acc = items[k].clone();
        } else if !items[k].as_str().is_empty() {
            acc.append("&");
            acc.append(items[k].as_str());
        }
        k = k + 1;
    }
    assert(all.take(items.len() as int) =~= all);
    if acc.as_str().is_empty() {
        None
    } else {
        Some(acc)
    }
}

/// What `url::Url::parse` makes of a text: the serialization of the URL,
/// or nothing when the text is not an absolute URL.
pub uninterp spec fn url_parsed(s: Seq<char>) -> Option<Seq<char>>;

/// The decoded key-value pairs of the query of the URL that a text parses
/// to, as `url::Url::query_pairs` gives them.
pub uninterp spec fn url_pairs(u: Seq<char>) -> Seq<(Seq<char>, Seq<char>)>;

/// The serialization of the URL that a text parses to, after
/// `url::Url::set_query` replaced its query with `q` (or removed it).
pub uninterp spec fn url_with_query(u: Seq<char>, q: Option<Seq<char>>) -> Seq<char>;

/// The text of an optional string slice.
pub open spec fn opt_text(q: Option<&str>) -> Option<Seq<char>> {
    match q {
        Some(t) => Some(t@),
        None => None,
    }
}

/// Parses an absolute URL with `url::Url::parse` and gives its
/// serialization; the error is the parser's message. A serialization
/// parses again to itself, as the crate's own invariant check asserts.
#[verifier::external_body]
fn url_parse(s: &str) -> (r: Result<String, String>)
    ensures
        match r {
            Ok(u) => url_parsed(s@) == Some(u@) && url_parsed(u@) == Some(u@),
            Err(_) => url_parsed(s@) is None,
        },
{
    url::Url::parse(s).map(String::from).map_err(|e| e.to_string())
}

/// The decoded key-value pairs of the query of a URL, with
/// `url::Url::query_pairs` on the URL that the text parses to.
#[verifier::external_body]
fn url_query_pairs(u: &str) -> (r: Vec<(String, String)>)
    requires
        url_parsed(u@) is Some,
    ensures
        pairs_view(r@) == url_pairs(u@),
{
    match url::Url::parse(u) {
        Ok(p) => p.query_pairs().map(|(k, v)| (k.into_owned(), v.into_owned())).collect(),
        Err(_) => Vec::new(),
    }
}

/// Replaces the query of a URL, or removes it with `None`, with
/// `url::Url::set_query` on the URL that the text parses to, and gives the
/// serialization.
#[verifier::external_body]
fn url_set_query(u: &str, query: Option<&str>) -> (r: String)
    requires
        url_parsed(u@) is Some,
    ensures
        r@ == url_with_query(u@, opt_text(query)),
{
    match url::Url::parse(u) {
        Ok(mut p) => {
            p.set_query(query);
            String::from(p)
        },
        Err(_) => u.to_string(),
    }
}

/// The query string that `query_string` makes of the pairs of a URL and the
/// extra parameters: none when the join is empty.
pub open spec fn joined_query(pairs: Seq<(Seq<char>, Seq<char>)>, extra: Seq<Seq<char>>) -> Option<Seq<char>> {
    let q = join_nonempty(pair_items(pairs) + extra);
    if q.len() == 0 {
        None
    } else {
        Some(q)
    }
}

impl RequestTemplate {
    /// The URL of a request from this template, given its URL template
    /// rendered, whether that template holds no expression, and the encoded
    /// extra query parameters: the rendered URL as parsed, kept as it is when
    /// the template is constant and has no query parameters; else with its
    /// query replaced by its pairs that have a value and the extra
    /// parameters, joined by `&` (see `query_string`), and removed when that
    /// join is empty. Fails when the rendered URL does not parse.
    pub fn create_url(&self, rendered_root: &str, root_is_const: bool, extra: &Vec<String>) -> (r: Result<
        String,
        String,
    >)
        ensures
            r is Ok <==> url_parsed(rendered_root@) is Some,
            r matches Ok(u) ==> u@ == (if self.query@.len() == 0 && root_is_const {
                url_parsed(rendered_root@)->0
            } else {
                url_with_query(
                    url_parsed(rendered_root@)->0,
                    joined_query(url_pairs(url_parsed(rendered_root@)->0), texts_view(extra@)),
                )
            }),
    {
        let url = match url_parse(rendered_root) {
            Ok(u) => u,
            Err(e) => {
                return Err(e);
            },
        };
        if self.query.len() == 0 && root_is_const {
            return Ok(url);
        }
        let base = url_query_pairs(url.as_str());
        match query_string(&base, extra) {
            Some(q) => Ok(url_set_query(url.as_str(), Some(q.as_str()))),
            None => Ok(url_set_query(url.as_str(), None)),
        }
    }
}

} // verus!
