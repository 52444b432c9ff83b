use vstd::prelude::*;

use crate::request_context::RequestContext;
use crate::text::{parse_usize, spec_parse_usize};
use crate::value::{Json, JsonValue, Value, entries_get, entries_json, items_json};

verus! {

/// One step down a JSON document: the member `name` of an object, or the
/// item of an array at the index that `name` denotes; nothing otherwise.
pub open spec fn path_step(v: Json, name: Seq<char>) -> Option<Json> {
    match v {
        Json::Object(entries) => entries_get(entries, name),
        Json::Array(items) => match spec_parse_usize(name) {
            Some(i) => if i < items.len() {
                Some(items[i as int])
            } else {
                None
            },
            None => None,
        },
        _ => None,
    }
}

/// The part of a JSON document that a path leads to.
pub open spec fn path_lookup(v: Json, path: Seq<Seq<char>>) -> Option<Json>
    decreases path.len(),
{
    if path.len() == 0 {
        Some(v)
    } else {
        match path_step(v, path[0]) {
            Some(w) => path_lookup(w, path.drop_first()),
            None => None,
        }
    }
}

/// The texts of a path.
pub open spec fn path_view(path: Seq<String>) -> Seq<Seq<char>> {
    Seq::new(path.len(), |i: int| path[i]@)
}

/// The mathematical form of an optional value.
pub open spec fn opt_json(v: Option<Value>) -> Option<Json> {
    match v {
        Some(x) => Some(x@),
        None => None,
    }
}

/// Follows a path down a JSON value: each name selects a member of an
/// object, or an item of an array by its index; nothing when a step finds
/// nothing.
pub fn get_path_value(input: &Value, path: &[String]) -> (r: Option<Value>)
    ensures
        opt_json(r) == path_lookup(input@, path_view(path@)),
{
    let ghost pv = path_view(path@);
    let mut cur: &JsonValue = input.serde();
    let mut i: usize = 0;
    assert(pv.skip(0) =~= pv);
    while i < path.len()
        invariant
            pv == path_view(path@),
            i <= path.len(),
            path_lookup(input@, pv) == path_lookup(cur@, pv.skip(i as int)),
        decreases path.len() - i,
    {
        let ghost rest = pv.skip(i as int);
        assert(rest.drop_first() =~= pv.skip(i + 1));
        assert(rest[0] == path@[i as int]@);
        match cur {
            JsonValue::Object(entries) => {
                proof {
                    JsonValue::lemma_object_view(*entries);
                }
                match JsonValue::object_get(entries, &path[i]) {
                    Some(v) => {
                        cur = v;
                    },
                    None => {
                        return None;
                    },
                }
            },
            JsonValue::Array(items) => {
                proof {
                    JsonValue::lemma_array_view(*items);
                }
                match parse_usize(path[i].as_str()) {
                    Some(idx) => {
                        if idx < items.len() {
                            assert(items_json(items@)[idx as int] == items@[idx as int]@);
                            cur = &items[idx];
                        } else {
                            return None;
                        }
                    },
                    None => {
                        return None;
                    },
                }
            },
            _ => {
                return None;
            },
        }
        i = i + 1;
    }
    Some(Value::new(cur.deep_clone()))
}

/// The context in which a field is evaluated: the request, the value of the
/// parent field, and the arguments of the field.
pub struct EvalContext<'a> {
    pub request_ctx: &'a RequestContext,
    pub graphql_ctx_value: Option<Value>,
    pub graphql_ctx_args: Option<Value>,
}

impl<'a> EvalContext<'a> {
    /// The arguments of the field, if any.
    pub open spec fn args(&self) -> Option<Json> {
        opt_json(self.graphql_ctx_args)
    }

    /// A context with no parent value and no arguments.
    pub fn new(request_ctx: &'a RequestContext) -> (r: EvalContext<'a>)
        ensures
            r.request_ctx == request_ctx,
            r.graphql_ctx_value is None,
            r.args() is None,
    {
        EvalContext { request_ctx, graphql_ctx_value: None, graphql_ctx_args: None }
    }

    /// The context with `value` as the parent value.
    pub fn with_value(self, value: Value) -> (r: EvalContext<'a>)
        ensures
            r.request_ctx == self.request_ctx,
            opt_json(r.graphql_ctx_value) == Some(value@),
            r.args() == self.args(),
    {
        EvalContext { graphql_ctx_value: Some(value), ..self }
    }

    /// The context with `args` as the arguments.
    pub fn with_args(self, args: Value) -> (r: EvalContext<'a>)
        ensures
            r.request_ctx == self.request_ctx,
            opt_json(r.graphql_ctx_value) == opt_json(self.graphql_ctx_value),
            r.args() == Some(args@),
    {
        EvalContext { graphql_ctx_args: Some(args), ..self }
    }

    /// The argument that `path` leads to; nothing without arguments.
    pub fn path_arg(&self, path: &[String]) -> (r: Option<Value>)
        ensures
            opt_json(r) == match self.args() {
                Some(a) => path_lookup(a, path_view(path@)),
                None => None,
            },
    {
        match &self.graphql_ctx_args {
            Some(args) => get_path_value(args, path),
            None => None,
        }
    }

    /// The part of the parent value that `path` leads to; `null` without a
    /// parent value.
    pub fn path_value(&self, path: &[String]) -> (r: Option<Value>)
        ensures
            opt_json(r) == match opt_json(self.graphql_ctx_value) {
                Some(v) => path_lookup(v, path_view(path@)),
                None => Some(Json::Null),
            },
    {
        match &self.graphql_ctx_value {
            Some(value) => get_path_value(value, path),
            None => Some(Value::new(JsonValue::Null)),
        }
    }
}

impl<'a> Clone for EvalContext<'a> {
    fn clone(&self) -> (r: EvalContext<'a>)
        ensures
            r.request_ctx == self.request_ctx,
            opt_json(r.graphql_ctx_value) == opt_json(self.graphql_ctx_value),
            r.args() == self.args(),
    {
        EvalContext {
            request_ctx: self.request_ctx,
            graphql_ctx_value: match &self.graphql_ctx_value {
                Some(v) => Some(v.clone()),
                None => None,
            },
            graphql_ctx_args: match &self.graphql_ctx_args {
                Some(v) => Some(v.clone()),
                None => None,
            },
        }
    }
}

/// Following a path and then another is following the two joined.
pub proof fn lemma_path_lookup_concat(v: Json, p: Seq<Seq<char>>, q: Seq<Seq<char>>)
    ensures
        path_lookup(v, p + q) == match path_lookup(v, p) {
            Some(w) => path_lookup(w, q),
            None => None,
        },
    decreases p.len(),
{
    if p.len() == 0 {
        assert(p + q =~= q);
    } else {
        assert((p + q).drop_first() =~= p.drop_first() + q);
        assert((p + q)[0] == p[0]);
        match path_step(v, p[0]) {
            Some(w) => lemma_path_lookup_concat(w, p.drop_first(), q),
            None => {},
        }
    }
}

/// The empty path leads to the whole document.
pub proof fn lemma_path_lookup_empty(v: Json)
    ensures
        path_lookup(v, Seq::empty()) == Some(v),
{
}

} // verus!
