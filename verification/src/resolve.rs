use vstd::prelude::*;

use crate::eval_ctx::{EvalContext, opt_json};
use crate::value::{Json, JsonValue, Value, entries_get, entries_json, items_json};

verus! {

/// How the resolver of one field is to be evaluated: the contexts to
/// evaluate it in, one evaluation each and in order; whether the results
/// are gathered into an array; and the context that the fields after it,
/// and the fields selected in it, are resolved in.
pub struct FieldPlan<'a> {
    pub contexts: Vec<EvalContext<'a>>,
    pub spread: bool,
    pub next: EvalContext<'a>,
}

/// What a context holds: the parent value and the arguments.
pub open spec fn ctx_state(c: EvalContext) -> (Option<Json>, Option<Json>) {
    (opt_json(c.graphql_ctx_value), c.args())
}

/// The arguments in force for a field with a resolver: its own when it has
/// some, else those already in the context.
pub open spec fn field_args_in(c: EvalContext, args: Option<Value>) -> Option<Json> {
    match args {
        Some(a) => Some(a@),
        None => c.args(),
    }
}

/// Plans the evaluation of a field. A field without a resolver is not
/// evaluated and leaves the context as it is. A field with one first puts
/// its arguments in the context; then, under an array parent, it is
/// evaluated once for each item, with that item as the parent value and the
/// results gathered into an array; under another parent value, once with
/// that value; with no parent value, once as it is. The context goes on
/// with the last parent value set.
pub fn plan_field<'a>(ctx: EvalContext<'a>, has_ir: bool, args: &Option<Value>, parent: &Option<Value>) -> (r: FieldPlan<'a>)
    ensures
        r.next.request_ctx == ctx.request_ctx,
        forall|k: int| 0 <= k < r.contexts.len() ==> (#[trigger] r.contexts@[k]).request_ctx == ctx.request_ctx,
        !has_ir ==> r.contexts.len() == 0 && !r.spread && ctx_state(r.next) == ctx_state(ctx),
        has_ir ==> r.next.args() == field_args_in(ctx, *args),
        has_ir ==> forall|k: int| 0 <= k < r.contexts.len() ==> (#[trigger] r.contexts@[k]).args() == field_args_in(ctx, *args),
        has_ir ==> match opt_json(*parent) {
            Some(Json::Array(items)) => {
                &&& r.spread
                &&& r.contexts.len() == items.len()
                &&& forall|k: int| 0 <= k < items.len() ==> opt_json((#[trigger] r.contexts@[k]).graphql_ctx_value) == Some(items[k])
                &&& opt_json(r.next.graphql_ctx_value) == if items.len() == 0 {
                    opt_json(ctx.graphql_ctx_value)
                } else {
                    Some(items.last())
                }
            },
            Some(v) => {
                &&& !r.spread
                &&& r.contexts.len() == 1
                &&& opt_json(r.contexts@[0].graphql_ctx_value) == Some(v)
                &&& opt_json(r.next.graphql_ctx_value) == Some(v)
            },
            None => {
                &&& !r.spread
                &&& r.contexts.len() == 1
                &&& opt_json(r.contexts@[0].graphql_ctx_value) == opt_json(ctx.graphql_ctx_value)
                &&& opt_json(r.next.graphql_ctx_value) == opt_json(ctx.graphql_ctx_value)
            },
        },
{
    if !has_ir {
        return FieldPlan { contexts: Vec::new(), spread: false, next: ctx };
    }
    let mut c = match args {
        Some(a) => ctx.with_args(a.clone()),
        None => ctx,
    };
    let ghost a1 = c.args();
    let ghost rc = c.request_ctx;
    match parent {
        Some(p) => match p.serde() {
            JsonValue::Array(items) => {
                proof {
                    JsonValue::lemma_array_view(*items);
                }
                let ghost first_value = opt_json(c.graphql_ctx_value);
                let mut contexts: Vec<EvalContext<'a>> = Vec::new();
                let mut i: usize = 0;
                while i < items.len()
                    invariant
                        i <= items.len(),
                        contexts.len() == i,
                        c.args() == a1,
                        c.request_ctx == rc,
                        forall|k: int| 0 <= k < i ==> (#[trigger] contexts@[k]).request_ctx == rc
                            && contexts@[k].args() == a1 && opt_json(contexts@[k].graphql_ctx_value)
                            == Some(items@[k]@),
                        opt_json(c.graphql_ctx_value) == if i == 0 {
                            first_value
                        } else {
                            Some(items@[i - 1]@)
                        },
                    decreases items.len() - i,
                {
                    c = c.with_value(Value::new(items[i].deep_clone()));
                    contexts.push(c.clone());
                    i = i + 1;
                }
                proof {
                    assert(opt_json(*parent) == Some(Json::Array(items_json(items@))));
                }
                FieldPlan { contexts, spread: true, next: c }
            },
            _ => {
                proof {
                    assert(opt_json(*parent) == Some(p@));
                    assert(!(p@ is Array));
                }
                let c2 = c.with_value(p.clone());
                let mut contexts: Vec<EvalContext<'a>> = Vec::new();
                contexts.push(c2.clone());
                FieldPlan { contexts, spread: false, next: c2 }
            },
        },
        None => {
            let mut contexts: Vec<EvalContext<'a>> = Vec::new();
            contexts.push(c.clone());
            FieldPlan { contexts, spread: false, next: c }
        },
    }
}

/// The value of a field from the results of its evaluations: the array of
/// them when they were spread over an array parent, else the one result.
pub fn assemble(spread: bool, results: Vec<Value>) -> (r: Value)
    requires
        !spread ==> results.len() == 1,
    ensures
        spread ==> r@ == Json::Array(Seq::new(results.len() as nat, |k: int| results@[k]@)),
        !spread ==> r@ == results@[0]@,
{
    if !spread {
        let mut results = results;
        return results.remove(0);
    }
    let ghost all = results@;
    let mut items: Vec<JsonValue> = Vec::new();
    let mut rest = results;
    let ghost mut taken: int = 0;
    while rest.len() > 0
        invariant
            0 <= taken <= all.len(),
            rest@ == all.skip(taken),
            items.len() == taken,
            forall|k: int| 0 <= k < taken ==> (#[trigger] items@[k])@ == all[k]@,
        decreases rest.len(),
    {
        let ghost before = rest@;
        let v = rest.remove(0);
        proof {
            assert(before[0] == all[taken]);
            assert(rest@ =~= all.skip(taken + 1));
        }
        items.push(v.into_serde());
        proof {
            taken = taken + 1;
        }
    }
    proof {
        JsonValue::lemma_array_view(items);
        assert(items_json(items@) =~= Seq::new(all.len() as nat, |k: int| all[k]@));
    }
    Value::new(JsonValue::Array(items))
}

/// What a field without a resolver takes from its parent value: under an
/// array, the same for each item; from an object, an object holding only
/// the entry for `key`, if it has one; any other value as it is.
pub open spec fn non_ir_value(v: Json, key: Seq<char>) -> Json
    decreases v,
{
    match v {
        Json::Array(items) => Json::Array(
            Seq::new(
                items.len(),
                |i: int|
                    if 0 <= i < items.len() {
                        non_ir_value(items[i], key)
                    } else {
                        Json::Null
                    },
            ),
        ),
        Json::Object(entries) => match entries_get(entries, key) {
            Some(x) => Json::Object(seq![(key, x)]),
            None => Json::Object(Seq::empty()),
        },
        _ => v,
    }
}

/// The part of a parent value that a field without a resolver selects by
/// its name.
pub fn resolve_non_ir(value: &JsonValue, key: &str) -> (r: JsonValue)
    ensures
        r@ == non_ir_value(value@, key@),
    decreases *value,
{
    match value {
        JsonValue::Array(arr) => {
            let mut out: Vec<JsonValue> = Vec::new();
            let mut i: usize = 0;
            while i < arr.len()
                invariant
                    *value == JsonValue::Array(*arr),
                    i <= arr.len(),
                    out.len() == i,
                    forall|j: int| 0 <= j < i ==> (#[trigger] out@[j])@ == non_ir_value(arr@[j]@, key@),
                decreases arr.len() - i,
            {
                proof {
                    assert(decreases_to!(*value => value->Array_0));
                    assert(decreases_to!(value->Array_0 => value->Array_0@[i as int]));
                }
                out.push(resolve_non_ir(&arr[i], key));
                i = i + 1;
            }
            proof {
                JsonValue::lemma_array_view(out);
                JsonValue::lemma_array_view(*arr);
                let ghost expected = non_ir_value(value@, key@);
                assert(value@ == Json::Array(items_json(arr@)));
                assert(expected is Array);
                assert(items_json(out@) =~= expected->Array_0);
            }
            JsonValue::Array(out)
        },
        JsonValue::Object(obj) => {
            proof {
                JsonValue::lemma_object_view(*obj);
            }
            let k = String::from_str(key);
            let mut out: Vec<(String, JsonValue)> = Vec::new();
            match JsonValue::object_get(obj, &k) {
                Some(v) => {
                    out.push((k, v.deep_clone()));
                },
                None => {},
            }
            proof {
                JsonValue::lemma_object_view(out);
                if out.len() == 1 {
                    assert(entries_json(out@) =~= seq![(key@, out@[0].1@)]);
                } else {
                    assert(entries_json(out@) =~= Seq::<(Seq<char>, Json)>::empty());
                }
            }
            JsonValue::Object(out)
        },
        _ => value.deep_clone(),
    }
}

} // verus!
