use vstd::prelude::*;

use crate::eval_ctx::{EvalContext, opt_json, path_lookup, path_view};
use crate::http::{
    QueryView, RequestTemplate, joined_query, texts_view, url_pairs, url_parsed, url_with_query,
};
use crate::map::str_eq;
use crate::text::push_char;
use crate::value::{Json, JsonValue, Value};

verus! {

/// Whether an expression opens at `i`: the characters `{{`.
pub open spec fn opens_at(t: Seq<char>, i: int) -> bool {
    0 <= i && i + 1 < t.len() && t[i] == '{' && t[i + 1] == '{'
}

/// Whether an expression closes at `i`: the characters `}}`.
pub open spec fn closes_at(t: Seq<char>, i: int) -> bool {
    0 <= i && i + 1 < t.len() && t[i] == '}' && t[i + 1] == '}'
}

/// The first position from `j` on where an expression closes.
pub open spec fn find_close(t: Seq<char>, j: int) -> Option<int>
    decreases t.len() - j,
{
    if j < 0 || j + 1 >= t.len() {
        None
    } else if closes_at(t, j) {
        Some(j)
    } else {
        find_close(t, j + 1)
    }
}

/// A closing position found from `j` is at `j` or after it, and closes.
pub proof fn lemma_find_close(t: Seq<char>, j: int)
    ensures
        find_close(t, j) matches Some(e) ==> j <= e && closes_at(t, e),
    decreases t.len() - j,
{
    if !(j < 0 || j + 1 >= t.len()) && !closes_at(t, j) {
        lemma_find_close(t, j + 1);
    }
}

/// Finds where an expression closes, from `j` on.
fn close_from(t: &str, j: usize) -> (r: Option<usize>)
    ensures
        match r {
            Some(e) => find_close(t@, j as int) == Some(e as int),
            None => find_close(t@, j as int) is None,
        },
{
    let n = t.unicode_len();
    let mut k = j;
    while k < n && k + 1 < n
        invariant
            n == t@.len(),
            j <= k,
            find_close(t@, j as int) == find_close(t@, k as int),
        decreases n - k,
    {
        if t.get_char(k) == '}' && t.get_char(k + 1) == '}' {
            return Some(k);
        }
        k = k + 1;
    }
    None
}

/// Adds a part to the parts of a path when it is not empty.
pub open spec fn push_part(done: Seq<Seq<char>>, cur: Seq<char>) -> Seq<Seq<char>> {
    if cur.len() == 0 {
        done
    } else {
        done.push(cur)
    }
}

/// The parts of a path read so far, and the part being read: parts are
/// separated by `.`, and blanks are left out.
pub open spec fn pieces(s: Seq<char>) -> (Seq<Seq<char>>, Seq<char>)
    decreases s.len(),
{
    if s.len() == 0 {
        (Seq::empty(), Seq::empty())
    } else {
        let (done, cur) = pieces(s.drop_last());
        let c = s.last();
        if c == '.' {
            (push_part(done, cur), Seq::empty())
        } else if c == ' ' {
            (done, cur)
        } else {
            (done, cur.push(c))
        }
    }
}

/// The parts of the path of an expression: `.value.user.id` has the parts
/// `value`, `user` and `id`.
pub open spec fn path_parts(s: Seq<char>) -> Seq<Seq<char>> {
    push_part(pieces(s).0, pieces(s).1)
}

/// The texts of a sequence of strings.
pub open spec fn strings_view(v: Seq<String>) -> Seq<Seq<char>> {
    Seq::new(v.len(), |i: int| v[i]@)
}

/// Splits the path of an expression into its parts.
fn split_path(s: &str) -> (r: Vec<String>)
    ensures
        strings_view(r@) == path_parts(s@),
{
    let n = s.unicode_len();
    let mut done: Vec<String> = Vec::new();
    let mut cur = String::new();
    let mut k: usize = 0;
    assert(s@.take(0) =~= Seq::<char>::empty());
    assert(strings_view(done@) =~= Seq::<Seq<char>>::empty());
    assert(cur@ =~= Seq::<char>::empty());
    while k < n
        invariant
            n == s@.len(),
            k <= n,
            (strings_view(done@), cur@) == pieces(s@.take(k as int)),
        decreases n - k,
    {
        let c = s.get_char(k);
        assert(s@.take(k + 1).drop_last() =~= s@.take(k as int));
        assert(s@.take(k + 1).last() == c);
        if c == '.' {
            if cur.as_str().unicode_len() > 0 {
                let ghost before = strings_view(done@);
                done.push(cur);
                assert(strings_view(done@) =~= before.push(done@[done@.len() - 1]@));
            }
            cur = String::new();
            assert(cur@ =~= Seq::<char>::empty());
        } else if c != ' ' {
            push_char(&mut cur, c);
        }
        k = k + 1;
    }
    assert(s@.take(n as int) =~= s@);
    if cur.as_str().unicode_len() > 0 {
        let ghost before = strings_view(done@);
        done.push(cur);
        assert(strings_view(done@) =~= before.push(done@[done@.len() - 1]@));
    }
    done
}

/// The value that an expression finds: under `value`, the part of the
/// parent value that the rest of the path leads to (`null` without a parent
/// value); under `args`, the argument it leads to; nothing otherwise.
pub open spec fn expr_value(e: Seq<char>, ctx: EvalContext) -> Option<Json> {
    let ps = path_parts(e);
    if ps.len() == 0 {
        None
    } else if ps[0] == "value"@ {
        match opt_json(ctx.graphql_ctx_value) {
            Some(v) => path_lookup(v, ps.drop_first()),
            None => Some(Json::Null),
        }
    } else if ps[0] == "args"@ {
        match ctx.args() {
            Some(a) => path_lookup(a, ps.drop_first()),
            None => None,
        }
    } else {
        None
    }
}

/// Finds the value of an expression.
fn eval_expr(e: &str, ctx: &EvalContext) -> (r: Option<Value>)
    ensures
        opt_json(r) == expr_value(e@, *ctx),
{
    let mut parts = split_path(e);
    if parts.len() == 0 {
        return None;
    }
    let head = parts.remove(0);
    assert(head@ == path_parts(e@)[0]);
    assert(path_view(parts@) =~= path_parts(e@).drop_first());
    if str_eq(head.as_str(), "value") {
        ctx.path_value(parts.as_slice())
    } else if str_eq(head.as_str(), "args") {
        ctx.path_arg(parts.as_slice())
    } else {
        None
    }
}

/// The text that a value puts in a template: a string or a number as it is
/// written, a boolean as `true` or `false`; `null`, a list and an object
/// put nothing.
pub open spec fn value_text(v: Json) -> Seq<char> {
    match v {
        Json::Str(s) => s,
        Json::Number(n) => n,
        Json::Bool(b) => if b {
            "true"@
        } else {
            "false"@
        },
        _ => Seq::empty(),
    }
}

/// The text that a value puts in a template.
fn text_of(v: &Value) -> (r: String)
    ensures
        r@ == value_text(v@),
{
    match v.serde() {
        JsonValue::Str(s) => s.clone(),
        JsonValue::Number(n) => n.clone(),
        JsonValue::Bool(b) => if *b {
            String::from_str("true")
        } else {
            String::from_str("false")
        },
        JsonValue::Null => String::new(),
        JsonValue::Array(items) => {
            proof {
                JsonValue::lemma_array_view(*items);
            }
            String::new()
        },
        JsonValue::Object(entries) => {
            proof {
                JsonValue::lemma_object_view(*entries);
            }
            String::new()
        },
    }
}

/// The text of a template from position `i` on, its expressions filled in:
/// an expression `{{path}}` gives the text of the value it finds (nothing
/// when it finds none); an expression left open, and every other
/// character, stands as it is.
pub open spec fn render_from(t: Seq<char>, i: int, ctx: EvalContext) -> Seq<char>
    decreases t.len() - i,
{
    if i < 0 || i >= t.len() {
        Seq::empty()
    } else if opens_at(t, i) {
        match find_close(t, i + 2) {
            Some(e) => {
                proof {
                    lemma_find_close(t, i + 2);
                }
                (match expr_value(t.subrange(i + 2, e), ctx) {
                    Some(v) => value_text(v),
                    None => Seq::empty(),
                }) + render_from(t, e + 2, ctx)
            },
            None => t.subrange(i, t.len() as int),
        }
    } else {
        seq![t[i]] + render_from(t, i + 1, ctx)
    }
}

/// A boolean puts its JSON literal in a template: `true` or `false`, two
/// different, non-empty texts.
pub proof fn lemma_bool_text(b: bool)
    ensures
        value_text(Json::Bool(b)) == (if b {
            "true"@
        } else {
            "false"@
        }),
        value_text(Json::Bool(b)).len() > 0,
        value_text(Json::Bool(true)) != value_text(Json::Bool(false)),
{
    reveal_strlit("true");
    reveal_strlit("false");
    assert(value_text(Json::Bool(true)).len() != value_text(Json::Bool(false)).len());
}

/// The first position from `j` on where an expression closes is `e`, when
/// it closes at `e` and nowhere from `j` before it.
proof fn lemma_find_close_at(t: Seq<char>, j: int, e: int)
    requires
        0 <= j <= e,
        closes_at(t, e),
        forall|k: int| j <= k < e ==> !#[trigger] closes_at(t, k),
    ensures
        find_close(t, j) == Some(e),
    decreases e - j,
{
    if j < e {
        lemma_find_close_at(t, j + 1, e);
    }
}

/// A template that is one expression `{{e}}`, whose path finds a boolean,
/// renders as the JSON literal of that boolean.
pub proof fn lemma_render_bool(e: Seq<char>, ctx: EvalContext, b: bool)
    requires
        forall|k: int| 0 <= k < e.len() ==> e[k] != '}',
        expr_value(e, ctx) == Some(Json::Bool(b)),
    ensures
        render_from("{{"@ + e + "}}"@, 0, ctx) == (if b {
            "true"@
        } else {
            "false"@
        }),
{
    reveal_strlit("{{");
    reveal_strlit("}}");
    let t = "{{"@ + e + "}}"@;
    let end: int = e.len() as int + 2;
    assert(t.len() == e.len() + 4);
    assert(opens_at(t, 0));
    assert(closes_at(t, end));
    assert forall|k: int| 2 <= k < end implies !#[trigger] closes_at(t, k) by {
        assert(t[k] == e[k - 2]);
    }
    lemma_find_close_at(t, 2, end);
    assert(t.subrange(2, end) =~= e);
    assert(render_from(t, end + 2, ctx) == Seq::<char>::empty());
    lemma_bool_text(b);
    assert(render_from(t, 0, ctx) =~= value_text(Json::Bool(b)));
}

/// Fills in all the expressions of a template from a context.
pub fn render_template(t: &str, ctx: &EvalContext) -> (r: String)
    ensures
        r@ == render_from(t@, 0, *ctx),
{
    let n = t.unicode_len();
    let mut out = String::new();
    let mut i: usize = 0;
    assert(out@ + render_from(t@, 0, *ctx) =~= render_from(t@, 0, *ctx));
    while i < n
        invariant
            n == t@.len(),
            i <= n,
            render_from(t@, 0, *ctx) == out@ + render_from(t@, i as int, *ctx),
        decreases n - i,
    {
        if i + 1 < n && t.get_char(i) == '{' && t.get_char(i + 1) == '{' {
            match close_from(t, i + 2) {
                Some(e) => {
                    proof {
                        lemma_find_close(t@, i + 2);
                    }
                    let ghost before = out@;
                    let expr = t.substring_char(i + 2, e);
                    match eval_expr(expr, ctx) {
                        Some(v) => {
                            let text = text_of(&v);
                            out.append(text.as_str());
                        },
                        None => {},
                    }
                    proof {
                        let piece = match expr_value(t@.subrange(i + 2, e as int), *ctx) {
                            Some(v) => value_text(v),
                            None => Seq::<char>::empty(),
                        };
                        assert(out@ =~= before + piece);
                        assert(before + (piece + render_from(t@, e + 2, *ctx)) =~= out@ + render_from(t@, e + 2, *ctx));
                    }
                    i = e + 2;
                },
                None => {
                    let ghost before = out@;
                    let rest = t.substring_char(i, n);
                    out.append(rest);
                    proof {
                        assert(render_from(t@, n as int, *ctx) =~= Seq::<char>::empty());
                        assert(out@ =~= out@ + render_from(t@, n as int, *ctx));
                    }
                    i = n;
                },
            }
        } else {
            let c = t.get_char(i);
            let ghost before = out@;
            push_char(&mut out, c);
            assert(before + (seq![c] + render_from(t@, i + 1, *ctx)) =~= out@ + render_from(t@, i + 1, *ctx));
            i = i + 1;
        }
    }
    assert(out@ + render_from(t@, n as int, *ctx) =~= out@);
    out
}

/// Where the literal text that starts at `i` ends: at the next `{{`, or at
/// the end.
pub open spec fn literal_end(t: Seq<char>, i: int) -> int
    decreases t.len() - i,
{
    if i < 0 || i >= t.len() || opens_at(t, i) {
        i
    } else {
        literal_end(t, i + 1)
    }
}

/// The value of a template from position `i` on: the first segment that
/// gives one; a literal text gives itself, an expression the text of the
/// value it finds, if any, and an expression left open stands as text.
pub open spec fn eval_from(t: Seq<char>, i: int, ctx: EvalContext) -> Option<Seq<char>>
    decreases t.len() - i,
{
    if i < 0 || i >= t.len() {
        None
    } else if opens_at(t, i) {
        match find_close(t, i + 2) {
            Some(e) => {
                proof {
                    lemma_find_close(t, i + 2);
                }
                match expr_value(t.subrange(i + 2, e), ctx) {
                    Some(v) => Some(value_text(v)),
                    None => eval_from(t, e + 2, ctx),
                }
            },
            None => Some(t.subrange(i, t.len() as int)),
        }
    } else {
        Some(t.subrange(i, literal_end(t, i)))
    }
}

/// Where the literal text that starts at `i` ends.
fn literal_end_from(t: &str, i: usize) -> (r: usize)
    requires
        i <= t@.len(),
    ensures
        r == literal_end(t@, i as int),
        i <= r <= t@.len(),
{
    let n = t.unicode_len();
    let mut k = i;
    while k < n && !(k + 1 < n && t.get_char(k) == '{' && t.get_char(k + 1) == '{')
        invariant
            n == t@.len(),
            i <= k <= n,
            literal_end(t@, i as int) == literal_end(t@, k as int),
        decreases n - k,
    {
        k = k + 1;
    }
    k
}

/// The value of a template in a context: its first segment that gives one.
pub fn eval_template(t: &str, ctx: &EvalContext) -> (r: Option<String>)
    ensures
        match r {
            Some(s) => eval_from(t@, 0, *ctx) == Some(s@),
            None => eval_from(t@, 0, *ctx) is None,
        },
{
    let n = t.unicode_len();
    let mut i: usize = 0;
    while i < n
        invariant
            n == t@.len(),
            i <= n,
            eval_from(t@, 0, *ctx) == eval_from(t@, i as int, *ctx),
        decreases n - i,
    {
        if i + 1 < n && t.get_char(i) == '{' && t.get_char(i + 1) == '{' {
            match close_from(t, i + 2) {
                Some(e) => {
                    proof {
                        lemma_find_close(t@, i + 2);
                    }
                    let expr = t.substring_char(i + 2, e);
                    match eval_expr(expr, ctx) {
                        Some(v) => {
                            return Some(text_of(&v));
                        },
                        None => {},
                    }
                    i = e + 2;
                },
                None => {
                    return Some(String::from_str(t.substring_char(i, n)));
                },
            }
        } else {
            let end = literal_end_from(t, i);
            return Some(String::from_str(t.substring_char(i, end)));
        }
    }
    None
}

/// Whether a template holds an expression: a `{{` closed by a later `}}`.
pub open spec fn has_expression(t: Seq<char>) -> bool {
    exists|i: int| #[trigger] opens_at(t, i) && find_close(t, i + 2) is Some
}

/// Whether a template holds no expression.
pub fn is_const_template(t: &str) -> (r: bool)
    ensures
        r == !has_expression(t@),
{
    let n = t.unicode_len();
    let mut i: usize = 0;
    while i < n
        invariant
            n == t@.len(),
            i <= n,
            forall|k: int| 0 <= k < i ==> !(#[trigger] opens_at(t@, k) && find_close(t@, k + 2) is Some),
        decreases n - i,
    {
        if i + 1 < n && t.get_char(i) == '{' && t.get_char(i + 1) == '{' {
            if close_from(t, i + 2).is_some() {
                assert(opens_at(t@, i as int));
                return false;
            }
        }
        i = i + 1;
    }
    true
}

/// The extra query parameters of a template in a context: for each query
/// parameter in order, `key=value` with its value template evaluated
/// (`key=` when that gives nothing), left out when it gives nothing and the
/// parameter is to be skipped then.
pub open spec fn extra_items(qs: Seq<QueryView>, ctx: EvalContext) -> Seq<Seq<char>>
    decreases qs.len(),
{
    if qs.len() == 0 {
        Seq::empty()
    } else {
        let rest = extra_items(qs.drop_last(), ctx);
        let q = qs.last();
        let parsed = eval_from(q.value, 0, ctx);
        if q.skip_empty && parsed is None {
            rest
        } else {
            rest.push(
                q.key + "="@ + match parsed {
                    Some(p) => p,
                    None => Seq::empty(),
                },
            )
        }
    }
}

/// Every query parameter whose value template gives a text `v` in the
/// context is among the extra query items as `key=v`, whether or not it is
/// to be skipped when empty; one whose value gives nothing is there as
/// `key=` unless it is to be skipped. Every item is one of these, and when
/// no parameter is left out the items are those of the parameters in
/// order.
pub proof fn lemma_extra_items(qs: Seq<QueryView>, ctx: EvalContext)
    ensures
        forall|i: int|
            0 <= i < qs.len() ==> (#[trigger] eval_from(qs[i].value, 0, ctx) matches Some(v)
                ==> extra_items(qs, ctx).contains(qs[i].key + "="@ + v)),
        forall|i: int|
            0 <= i < qs.len() && !qs[i].skip_empty && #[trigger] eval_from(qs[i].value, 0, ctx) is None
                ==> extra_items(qs, ctx).contains(qs[i].key + "="@),
        forall|k: int|
            0 <= k < extra_items(qs, ctx).len() ==> exists|i: int|
                0 <= i < qs.len() && #[trigger] extra_items(qs, ctx)[k] == qs[i].key + "="@ + match eval_from(
                    qs[i].value,
                    0,
                    ctx,
                ) {
                    Some(v) => v,
                    None => Seq::empty(),
                },
        (forall|i: int|
            0 <= i < qs.len() ==> #[trigger] eval_from(qs[i].value, 0, ctx) is Some || !qs[i].skip_empty) ==> {
            &&& extra_items(qs, ctx).len() == qs.len()
            &&& forall|i: int|
                0 <= i < qs.len() ==> #[trigger] extra_items(qs, ctx)[i] == qs[i].key + "="@ + match eval_from(
                    qs[i].value,
                    0,
                    ctx,
                ) {
                    Some(v) => v,
                    None => Seq::empty(),
                }
        },
    decreases qs.len(),
{
    if qs.len() > 0 {
        let init = qs.drop_last();
        let n = qs.len() - 1;
        lemma_extra_items(init, ctx);
        let rest = extra_items(init, ctx);
        let out = extra_items(qs, ctx);
        assert forall|i: int| 0 <= i < init.len() implies init[i] == qs[i] by {}
        let q = qs[n];
        let parsed = eval_from(q.value, 0, ctx);
        let item = q.key + "="@ + match parsed {
            Some(p) => p,
            None => Seq::empty(),
        };
        if q.skip_empty && parsed is None {
            assert(out == rest);
        } else {
            assert(out == rest.push(item));
            assert forall|k: int| 0 <= k < rest.len() implies out[k] == rest[k] by {}
        }
        assert forall|i: int| 0 <= i < qs.len() implies (#[trigger] eval_from(qs[i].value, 0, ctx) matches Some(v)
            ==> out.contains(qs[i].key + "="@ + v)) by {
            if let Some(v) = eval_from(qs[i].value, 0, ctx) {
                if i < n {
                    assert(eval_from(init[i].value, 0, ctx) == Some(v));
                    let k = choose|k: int| 0 <= k < rest.len() && rest[k] == init[i].key + "="@ + v;
                    assert(out[k] == rest[k]);
                } else {
                    assert(out[rest.len() as int] == item);
                }
            }
        }
        assert forall|i: int|
            0 <= i < qs.len() && !qs[i].skip_empty && #[trigger] eval_from(qs[i].value, 0, ctx) is None
            implies out.contains(qs[i].key + "="@) by {
            if i < n {
                assert(eval_from(init[i].value, 0, ctx) is None);
                let k = choose|k: int| 0 <= k < rest.len() && rest[k] == init[i].key + "="@;
                assert(out[k] == rest[k]);
            } else {
                assert(q.key + "="@ + Seq::<char>::empty() =~= q.key + "="@);
                assert(out[rest.len() as int] == item);
            }
        }
        assert forall|k: int| 0 <= k < out.len() implies exists|i: int|
            0 <= i < qs.len() && #[trigger] out[k] == qs[i].key + "="@ + match eval_from(qs[i].value, 0, ctx) {
                Some(v) => v,
                None => Seq::empty(),
            } by {
            if k < rest.len() {
                let i = choose|i: int|
                    0 <= i < init.len() && #[trigger] rest[k] == init[i].key + "="@ + match eval_from(
                        init[i].value,
                        0,
                        ctx,
                    ) {
                        Some(v) => v,
                        None => Seq::empty(),
                    };
                assert(out[k] == rest[k]);
                assert(init[i] == qs[i]);
            } else {
                assert(out[k] == item);
                assert(qs[n] == q);
            }
        }
        if forall|i: int|
            0 <= i < qs.len() ==> #[trigger] eval_from(qs[i].value, 0, ctx) is Some || !qs[i].skip_empty {
            assert forall|i: int| 0 <= i < init.len() implies #[trigger] eval_from(init[i].value, 0, ctx) is Some
                || !init[i].skip_empty by {
                assert(eval_from(qs[i].value, 0, ctx) is Some || !qs[i].skip_empty);
            }
            assert(eval_from(qs[n].value, 0, ctx) is Some || !qs[n].skip_empty);
        }
    }
}

/// The extra query parameters of a template in a context.
pub fn extra_query(t: &RequestTemplate, ctx: &EvalContext) -> (r: Vec<String>)
    ensures
        texts_view(r@) == extra_items(t@.query, *ctx),
{
    let ghost qs = t@.query;
    let mut out: Vec<String> = Vec::new();
    let mut j: usize = 0;
    assert(qs.take(0) =~= Seq::<QueryView>::empty());
    assert(texts_view(out@) =~= Seq::<Seq<char>>::empty());
    while j < t.query.len()
        invariant
            qs == t@.query,
            qs.len() == t.query.len(),
            j <= t.query.len(),
            texts_view(out@) == extra_items(qs.take(j as int), *ctx),
        decreases t.query.len() - j,
    {
        let q = &t.query[j];
        assert(qs.take(j + 1).drop_last() =~= qs.take(j as int));
        assert(qs.take(j + 1).last() == q@);
        let parsed = eval_template(q.value.as_str(), ctx);
        let skip = q.skip_empty && parsed.is_none();
        if !skip {
            let mut item = q.key.clone();
            item.append("=");
            match &parsed {
                Some(p) => item.append(p.as_str()),
                None => {},
            }
            let ghost before = texts_view(out@);
            out.push(item);
            proof {
                assert(texts_view(out@) =~= before.push(item@));
                if parsed is None {
                    assert(item@ =~= q.key@ + "="@ + Seq::<char>::empty());
                }
            }
        }
        j = j + 1;
    }
    assert(qs.take(t.query.len() as int) =~= qs);
    out
}

impl RequestTemplate {
    /// The URL of a request from this template in a context: its URL
    /// template with all expressions filled in, parsed; kept as it is when
    /// the template holds no expression and has no query parameters; else
    /// with its query replaced by its pairs that have a value and the extra
    /// query parameters, joined by `&`. Fails when the filled-in URL does
    /// not parse.
    pub fn url_in(&self, ctx: &EvalContext) -> (r: Result<String, String>)
        ensures
            ({
                let rendered = render_from(self.root_url@, 0, *ctx);
                &&& r is Ok <==> url_parsed(rendered) is Some
                &&& r matches Ok(u) ==> u@ == (if self@.query.len() == 0 && !has_expression(self.root_url@) {
                    url_parsed(rendered)->0
                } else {
                    url_with_query(
                        url_parsed(rendered)->0,
                        joined_query(url_pairs(url_parsed(rendered)->0), extra_items(self@.query, *ctx)),
                    )
                })
            }),
    {
        let rendered = render_template(self.root_url.as_str(), ctx);
        let is_const = is_const_template(self.root_url.as_str());
        let extra = extra_query(self, ctx);
        self.create_url(rendered.as_str(), is_const, &extra)
    }
}

impl RequestTemplate {
    /// Whether the template holds no expression: neither its URL template
    /// nor the value template of any query parameter.
    pub fn is_const(&self) -> (r: bool)
        ensures
            r == (!has_expression(self.root_url@) && forall|i: int|
                0 <= i < self@.query.len() ==> !has_expression(#[trigger] self@.query[i].value)),
    {
        if !is_const_template(self.root_url.as_str()) {
            return false;
        }
        let mut j: usize = 0;
        while j < self.query.len()
            invariant
                j <= self.query.len(),
                self@.query.len() == self.query.len(),
                !has_expression(self.root_url@),
                forall|i: int| 0 <= i < j ==> !has_expression(#[trigger] self@.query[i].value),
            decreases self.query.len() - j,
        {
            assert(self@.query[j as int] == self.query@[j as int]@);
            if !is_const_template(self.query[j].value.as_str()) {
                assert(has_expression(self@.query[j as int].value));
                return false;
            }
            j = j + 1;
        }
        true
    }
}

} // verus!
