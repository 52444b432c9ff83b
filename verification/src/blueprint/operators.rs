use vstd::prelude::*;

use crate::blueprint::{BlueprintError, FieldDefinition, FieldDefinitionView};
use crate::config::{Config, Http, Resolver};
use crate::config;
use crate::http::{Endpoint, EndpointView, QueryView, RequestTemplate, template_of_endpoint};
use crate::ir::{IO, IOView, IR, IRView, opt_ir_view};
use crate::text::{trim_end_slashes, trim_trailing_slashes};

verus! {

/// The base URL of an `@http` resolver: its own, else the upstream's.
pub open spec fn base_url_of(config: Config, http: Http) -> Option<Seq<char>> {
    if http.base_url is Some {
        Some(http.base_url->0@)
    } else if config.upstream.base_url is Some {
        Some(config.upstream.base_url->0@)
    } else {
        None
    }
}

/// The endpoint of an `@http` resolver whose base URL is `base`: the base
/// URL without its trailing `/`s followed by the path, the query parameters
/// (a parameter without `skip_empty` is not skipped), and the method.
pub open spec fn http_endpoint(base: Seq<char>, http: Http) -> EndpointView {
    EndpointView {
        path: trim_trailing_slashes(base) + http.path@,
        query: Seq::new(
            http.query@.len(),
            |i: int|
                (
                    http.query@[i].key@,
                    http.query@[i].value@,
                    match http.query@[i].skip_empty {
                        Some(b) => b,
                        None => false,
                    },
                ),
        ),
        method: http.method,
    }
}

/// The resolver that an `@http` directive compiles to, or nothing when no
/// base URL is defined.
pub open spec fn compiled_http(config: Config, http: Http) -> Option<IRView> {
    match base_url_of(config, http) {
        Some(base) => Some(
            IRView::IO(IOView::Http { req_template: template_of_endpoint(http_endpoint(base, http)) }),
        ),
        None => None,
    }
}

/// An `@http` directive with a base URL compiles to a request template on
/// the base URL (without its trailing `/`s) followed by the path, with the
/// directive's method and exactly its query parameters, in order: the key
/// and the value template of each, skipped when empty only when the
/// directive says so.
pub proof fn lemma_compiled_http_template(config: Config, http: Http)
    requires
        base_url_of(config, http) is Some,
    ensures
        compiled_http(config, http) matches Some(IRView::IO(IOView::Http { req_template: t })) && {
            &&& t.root_url == trim_trailing_slashes(base_url_of(config, http)->0) + http.path@
            &&& t.method == http.method
            &&& t.query.len() == http.query@.len()
            &&& forall|i: int|
                0 <= i < http.query@.len() ==> #[trigger] t.query[i] == (QueryView {
                    key: http.query@[i].key@,
                    value: http.query@[i].value@,
                    skip_empty: match http.query@[i].skip_empty {
                        Some(b) => b,
                        None => false,
                    },
                })
        },
{
}

/// Compiles an `@http` directive to the resolver of a field: a request
/// template on the base URL of the directive, or of the upstream.
pub fn compile_http(config_module: &Config, http: &Http) -> (r: Result<IR, BlueprintError>)
    ensures
        match r {
            Ok(ir) => compiled_http(*config_module, *http) == Some(ir@),
            Err(e) => compiled_http(*config_module, *http) is None && e == BlueprintError::NoBaseUrl,
        },
{
    let base_url: String = match &http.base_url {
        Some(base) => base.clone(),
        None => match &config_module.upstream.base_url {
            Some(base) => base.clone(),
            None => {
                return Err(BlueprintError::NoBaseUrl);
            },
        },
    };
    let mut url = trim_end_slashes(base_url.as_str());
    url.append(http.path.as_str());
    let ghost expected = http_endpoint(base_url@, *http);
    let mut query: Vec<(String, String, bool)> = Vec::new();
    let mut i: usize = 0;
    while i < http.query.len()
        invariant
            expected == http_endpoint(base_url@, *http),
            i <= http.query.len(),
            query.len() == i,
            forall|j: int|
                0 <= j < i ==> #[trigger] query@[j].0@ == expected.query[j].0 && query@[j].1@
                    == expected.query[j].1 && query@[j].2 == expected.query[j].2,
        decreases http.query.len() - i,
    {
        let key = http.query[i].key.clone();
        let value = http.query[i].value.clone();
        let skip = match http.query[i].skip_empty {
            Some(b) => b,
            None => false,
        };
        query.push((key, value, skip));
        i = i + 1;
    }
    let endpoint = Endpoint::new(url).method(http.method).query(query);
    assert(endpoint@.query =~= expected.query);
    let req_template = RequestTemplate::from_endpoint(endpoint);
    Ok(IR::IO(IO::Http { req_template }))
}

/// Whether the resolver of a field compiles: it has none, or its `@http`
/// directive has a base URL.
pub open spec fn resolver_compiles(config: Config, field: config::Field) -> bool {
    match field.resolver {
        Some(Resolver::Http(http)) => compiled_http(config, http) is Some,
        None => true,
    }
}

/// The definition `def` with the resolver of `field` set, when it has one.
pub open spec fn with_http(config: Config, field: config::Field, def: FieldDefinitionView) -> FieldDefinitionView {
    match field.resolver {
        Some(Resolver::Http(http)) => FieldDefinitionView {
            resolver: compiled_http(config, http),
            ..def
        },
        None => def,
    }
}

/// Sets the resolver of a field definition from the `@http` directive of the
/// field, when it has one.
pub fn update_http(field: &config::Field, config: &Config, def: FieldDefinition) -> (r: Result<
    FieldDefinition,
    BlueprintError,
>)
    ensures
        match r {
            Ok(d) => resolver_compiles(*config, *field) && d@ == with_http(*config, *field, def@),
            Err(e) => !resolver_compiles(*config, *field) && e == BlueprintError::NoBaseUrl,
        },
{
    let mut def = def;
    match &field.resolver {
        Some(Resolver::Http(http)) => {
            match compile_http(config, http) {
                Ok(ir) => {
                    def.resolver = Some(ir);
                    Ok(def)
                },
                Err(e) => Err(e),
            }
        },
        None => Ok(def),
    }
}

} // verus!
