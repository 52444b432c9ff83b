use vstd::prelude::*;

use crate::blueprint::definitions::{
    config_compiles, config_definitions, field_definition, to_definitions, type_field_definitions,
};
use crate::blueprint::operators::compiled_http;
use crate::blueprint::field_map::{FieldHash, FieldMap};
use crate::blueprint::model::{Arg, ArgView, Field, FieldName, FieldView, TypeName, args_view};
use crate::blueprint::{
    Blueprint, BlueprintError, Server, Upstream, Definition, DefinitionView, FieldDefinitionView, definitions_view,
    field_defs_view,
};
use crate::config;
use crate::config::Config;
use crate::ir::{IR, IRView, clone_opt_ir, opt_ir_view};
use crate::map::{keys_sorted, lemma_key_lt_order, lemma_lookup_found, lemma_sorted_lookup, str_eq};

verus! {

/// The name of the type of a field of the configuration.
pub open spec fn child_name(field: config::Field) -> Seq<char> {
    field.ty_of@.named()
}

/// Whether every chain of fields from type `name` leaves the types of the
/// configuration within `n` steps; the schema then has no cycle reachable
/// from `name`.
pub open spec fn depth_ok(config: Config, name: Seq<char>, n: nat) -> bool
    decreases n,
{
    match config.types.lookup(name) {
        None => true,
        Some(ty) => n > 0 && forall|i: int|
            0 <= i < ty.fields@.len() ==> depth_ok(config, #[trigger] child_name(ty.fields@[i].1), (n - 1) as nat),
    }
}

/// Whether the types reachable from `name` form no cycle.
pub open spec fn acyclic_from(config: Config, name: Seq<char>) -> bool {
    exists|n: nat| depth_ok(config, name, n)
}

/// The types of the configuration that chains of at most `n` fields lead
/// to from type `name`, `name` included.
pub open spec fn reach(config: Config, name: Seq<char>, n: nat) -> Set<Seq<char>>
    decreases n, 0nat,
{
    match config.types.lookup(name) {
        None => Set::empty(),
        Some(ty) => if n == 0 {
            Set::empty()
        } else {
            Set::empty().insert(name).union(reach_fields(config, ty.fields@, (n - 1) as nat))
        },
    }
}

/// The types that chains of at most `n` fields lead to from the types of
/// the fields `fs`.
pub open spec fn reach_fields(config: Config, fs: Seq<(Seq<char>, config::Field)>, n: nat) -> Set<
    Seq<char>,
>
    decreases n, fs.len() + 1,
{
    if fs.len() == 0 {
        Set::empty()
    } else {
        reach(config, child_name(fs[0].1), n).union(reach_fields(config, fs.drop_first(), n))
    }
}

/// The keys of the fields of the types `types`: (field name, type name).
pub open spec fn field_keys(config: Config, types: Set<Seq<char>>) -> Set<(Seq<char>, Seq<char>)> {
    Set::new(
        |k: (Seq<char>, Seq<char>)|
            types.contains(k.1) && config.types.lookup(k.1) is Some && config.types.lookup(
                k.1,
            )->0.fields.lookup(k.0) is Some,
    )
}

/// The first field definition named `f`.
pub open spec fn first_named(fields: Seq<FieldDefinitionView>, f: Seq<char>) -> Option<FieldDefinitionView>
    decreases fields.len(),
{
    if fields.len() == 0 {
        None
    } else if fields[0].name == f {
        Some(fields[0])
    } else {
        first_named(fields.drop_first(), f)
    }
}

/// The definition of field `f` in the first interface or object definition
/// named `ty` that has one.
pub open spec fn find_field_definition(defs: Seq<DefinitionView>, ty: Seq<char>, f: Seq<char>) -> Option<
    FieldDefinitionView,
>
    decreases defs.len(),
{
    if defs.len() == 0 {
        None
    } else {
        match defs[0] {
            DefinitionView::Interface { name, fields } => if name == ty && first_named(fields, f) is Some {
                first_named(fields, f)
            } else {
                find_field_definition(defs.drop_first(), ty, f)
            },
            DefinitionView::Object { name, fields } => if name == ty && first_named(fields, f) is Some {
                first_named(fields, f)
            } else {
                find_field_definition(defs.drop_first(), ty, f)
            },
            DefinitionView::InputObject { .. } => find_field_definition(defs.drop_first(), ty, f),
        }
    }
}

/// The blueprint field for field `f` of type `ty`: its name and type, the
/// resolver of its definition among `defs`, and its arguments in order of name.
pub open spec fn blueprint_field(defs: Seq<DefinitionView>, ty: Seq<char>, f: Seq<char>, field: config::Field) -> FieldView {
    FieldView {
        name: f,
        type_of: field.ty_of@,
        ir: match find_field_definition(defs, ty, f) {
            Some(d) => d.resolver,
            None => None,
        },
        args: Seq::new(
            field.args@.len(),
            |i: int| ArgView { name: field.args@[i].0, type_of: field.args@[i].1.type_of@ },
        ),
    }
}

/// The blueprint field of the key (field name, type name).
pub open spec fn field_value(config: Config, defs: Seq<DefinitionView>, k: (Seq<char>, Seq<char>)) -> FieldView {
    blueprint_field(defs, k.1, k.0, config.types.lookup(k.1)->0.fields.lookup(k.0)->0)
}

/// The fields of the blueprint: every field of every type reachable from
/// `root`, keyed by its name and the name of its type.
pub open spec fn fields_spec(config: Config, defs: Seq<DefinitionView>, root: Seq<char>, n: nat) -> Map<
    (Seq<char>, Seq<char>),
    FieldView,
> {
    Map::new(
        |k: (Seq<char>, Seq<char>)| field_keys(config, reach(config, root, n)).contains(k),
        |k: (Seq<char>, Seq<char>)| field_value(config, defs, k),
    )
}

/// The types reached through the fields `a` and then `x` are those reached
/// through `a` and those reached from the type of `x`.
proof fn lemma_reach_fields_push(config: Config, a: Seq<(Seq<char>, config::Field)>, x: (Seq<char>, config::Field), n: nat)
    ensures
        reach_fields(config, a.push(x), n) == reach_fields(config, a, n).union(reach(config, child_name(x.1), n)),
    decreases a.len(),
{
    if a.len() == 0 {
        assert(a.push(x).drop_first() =~= Seq::<(Seq<char>, config::Field)>::empty());
        assert(a.push(x)[0] == x);
        assert(reach_fields(config, a.push(x).drop_first(), n) == Set::<Seq<char>>::empty());
        assert(reach_fields(config, a, n) == Set::<Seq<char>>::empty());
        assert(reach_fields(config, a.push(x), n) =~= reach_fields(config, a, n).union(reach(config, child_name(x.1), n)));
    } else {
        assert(a.push(x).drop_first() =~= a.drop_first().push(x));
        lemma_reach_fields_push(config, a.drop_first(), x, n);
        assert(reach_fields(config, a.push(x), n) =~= reach_fields(config, a, n).union(reach(config, child_name(x.1), n)));
    }
}

/// The definition of the field named `f`, by a walk over the fields.
fn find_in_fields(fields: &Vec<crate::blueprint::FieldDefinition>, field_name: &str) -> (r: Option<usize>)
    ensures
        match r {
            Some(i) => i < fields.len() && first_named(field_defs_view(fields@), field_name@) == Some(fields@[i as int]@),
            None => first_named(field_defs_view(fields@), field_name@) is None,
        },
{
    let ghost all = field_defs_view(fields@);
    let mut i: usize = 0;
    assert(all.skip(0) =~= all);
    while i < fields.len()
        invariant
            all == field_defs_view(fields@),
            i <= fields.len(),
            first_named(all, field_name@) == first_named(all.skip(i as int), field_name@),
        decreases fields.len() - i,
    {
        assert(all.skip(i as int).drop_first() =~= all.skip(i + 1));
        if str_eq(fields[i].name.as_str(), field_name) {
            return Some(i);
        }
        i = i + 1;
    }
    None
}

/// The resolver of the definition of field `field_name` in the first
/// interface or object definition named `ty_name` that has one.
fn find_resolver(defs: &[Definition], ty_name: &str, field_name: &str) -> (r: Option<IR>)
    ensures
        opt_ir_view(r) == match find_field_definition(definitions_view(defs@), ty_name@, field_name@) {
            Some(d) => d.resolver,
            None => None,
        },
{
    let ghost all = definitions_view(defs@);
    let mut i: usize = 0;
    assert(all.skip(0) =~= all);
    while i < defs.len()
        invariant
            all == definitions_view(defs@),
            i <= defs.len(),
            find_field_definition(all, ty_name@, field_name@) == find_field_definition(
                all.skip(i as int),
                ty_name@,
                field_name@,
            ),
        decreases defs.len() - i,
    {
        assert(all.skip(i as int).drop_first() =~= all.skip(i + 1));
        assert(all.skip(i as int)[0] == defs@[i as int]@);
        match &defs[i] {
            Definition::Interface(d) => {
                if str_eq(d.name.as_str(), ty_name) {
                    match find_in_fields(&d.fields, field_name) {
                        Some(j) => {
                            return clone_opt_ir(&d.fields[j].resolver);
                        },
                        None => {},
                    }
                }
            },
            Definition::Object(d) => {
                if str_eq(d.name.as_str(), ty_name) {
                    match find_in_fields(&d.fields, field_name) {
                        Some(j) => {
                            return clone_opt_ir(&d.fields[j].resolver);
                        },
                        None => {},
                    }
                }
            },
            Definition::InputObject(_) => {},
        }
        i = i + 1;
    }
    None
}

/// Once chains of `n` fields leave the types, allowing longer chains reaches
/// no more types.
pub proof fn lemma_reach_stable(config: Config, name: Seq<char>, n: nat, m: nat)
    requires
        depth_ok(config, name, n),
        n <= m,
    ensures
        reach(config, name, m) == reach(config, name, n),
        depth_ok(config, name, m),
    decreases n, 0nat,
{
    match config.types.lookup(name) {
        None => {},
        Some(ty) => {
            lemma_reach_fields_stable(config, ty.fields@, (n - 1) as nat, (m - 1) as nat);
            assert forall|i: int| 0 <= i < ty.fields@.len() implies depth_ok(config, #[trigger] child_name(ty.fields@[i].1), (m - 1) as nat) by {
                lemma_reach_stable(config, child_name(ty.fields@[i].1), (n - 1) as nat, (m - 1) as nat);
            }
        },
    }
}

/// `lemma_reach_stable` for the types of a sequence of fields.
proof fn lemma_reach_fields_stable(config: Config, fs: Seq<(Seq<char>, config::Field)>, n: nat, m: nat)
    requires
        forall|i: int| 0 <= i < fs.len() ==> depth_ok(config, #[trigger] child_name(fs[i].1), n),
        n <= m,
    ensures
        reach_fields(config, fs, m) == reach_fields(config, fs, n),
    decreases n, fs.len() + 1,
{
    if fs.len() > 0 {
        lemma_reach_stable(config, child_name(fs[0].1), n, m);
        assert forall|i: int| 0 <= i < fs.drop_first().len() implies depth_ok(config, #[trigger] child_name(fs.drop_first()[i].1), n) by {
            assert(fs.drop_first()[i] == fs[i + 1]);
        }
        lemma_reach_fields_stable(config, fs.drop_first(), n, m);
    }
}

/// Any two bounds on the chains from `name` reach the same types.
pub proof fn lemma_reach_unique(config: Config, name: Seq<char>, n: nat, m: nat)
    requires
        depth_ok(config, name, n),
        depth_ok(config, name, m),
    ensures
        reach(config, name, m) == reach(config, name, n),
{
    if n <= m {
        lemma_reach_stable(config, name, n, m);
    } else {
        lemma_reach_stable(config, name, m, n);
    }
}

/// The keys of the fields `fs` of type `name`.
pub open spec fn own_keys(name: Seq<char>, fs: Seq<(Seq<char>, config::Field)>) -> Set<(Seq<char>, Seq<char>)> {
    Set::new(
        |k: (Seq<char>, Seq<char>)| k.1 == name && exists|j: int| 0 <= j < fs.len() && #[trigger] fs[j].0 == k.0,
    )
}

/// The arguments of a field of the blueprint, one per argument of the field
/// of the configuration, in order of name.
fn blueprint_args(field: &config::Field) -> (r: Vec<Arg>)
    ensures
        args_view(r@) == Seq::new(
            field.args@.len(),
            |i: int| ArgView { name: field.args@[i].0, type_of: field.args@[i].1.type_of@ },
        ),
{
    let mut args: Vec<Arg> = Vec::new();
    let mut i: usize = 0;
    while i < field.args.len()
        invariant
            i <= field.args@.len(),
            args.len() == i,
            forall|j: int| 0 <= j < i ==> #[trigger] args@[j]@ == (ArgView {
                name: field.args@[j].0,
                type_of: field.args@[j].1.type_of@,
            }),
        decreases field.args@.len() - i,
    {
        let name = field.args.key_at(i).clone();
        let arg = field.args.value_at(i);
        args.push(Arg { name, type_of: arg.type_of.clone() });
        i = i + 1;
    }
    assert(args_view(args@) =~= Seq::new(
        field.args@.len(),
        |i: int| ArgView { name: field.args@[i].0, type_of: field.args@[i].1.type_of@ },
    ));
    args
}

/// The keys that the loop over the first `i` fields of type `name` has
/// put in the map: those of the types reached through them, and their own.
pub open spec fn loop_keys(
    config: Config,
    name: Seq<char>,
    fs: Seq<(Seq<char>, config::Field)>,
    i: int,
    n: nat,
) -> Set<(Seq<char>, Seq<char>)> {
    field_keys(config, reach_fields(config, fs.take(i), n)).union(own_keys(name, fs.take(i)))
}

/// Adds to the map every field of type `ty_name` and of the types reachable
/// from it, each keyed by its name and the name of its type; every other
/// entry of the map stays as it was.
fn populate_nested_field(
    config: &Config,
    ty_name: &str,
    field_map: &mut FieldMap,
    defs: &[Definition],
    Ghost(n): Ghost<nat>,
)
    requires
        depth_ok(*config, ty_name@, n),
    ensures
        final(field_map)@.dom() == old(field_map)@.dom().union(
            field_keys(*config, reach(*config, ty_name@, n)),
        ),
        forall|k: (Seq<char>, Seq<char>)|
            field_keys(*config, reach(*config, ty_name@, n)).contains(k) ==> #[trigger] final(field_map)@[k]
                == field_value(*config, definitions_view(defs@), k),
        forall|k: (Seq<char>, Seq<char>)|
            old(field_map)@.dom().contains(k) && !field_keys(*config, reach(*config, ty_name@, n)).contains(k)
                ==> #[trigger] final(field_map)@[k] == old(field_map)@[k],
    decreases n,
{
    let ghost dv = definitions_view(defs@);
    match config.types.get(ty_name) {
        None => {
            assert(field_keys(*config, reach(*config, ty_name@, n)) =~= Set::empty());
            assert(field_map@.dom() =~= old(field_map)@.dom().union(
                field_keys(*config, reach(*config, ty_name@, n)),
            ));
        },
        Some(ty) => {
            proof {
                use_type_invariant(&ty.fields);
            }
            let ghost fs = ty.fields@;
            let ghost d0 = field_map@.dom();
            let ghost m0 = field_map@;
            let mut i: usize = 0;
            assert(fs.take(0) =~= Seq::<(Seq<char>, config::Field)>::empty());
            assert(field_map@.dom() =~= d0.union(loop_keys(*config, ty_name@, fs, 0, (n - 1) as nat)));
            while i < ty.fields.len()
                invariant
                    config.types.lookup(ty_name@) == Some(*ty),
                    fs == ty.fields@,
                    keys_sorted(fs),
                    depth_ok(*config, ty_name@, n),
                    n > 0,
                    i <= fs.len(),
                    dv == definitions_view(defs@),
                    d0 == m0.dom(),
                    field_map@.dom() == d0.union(loop_keys(*config, ty_name@, fs, i as int, (n - 1) as nat)),
                    forall|k: (Seq<char>, Seq<char>)|
                        loop_keys(*config, ty_name@, fs, i as int, (n - 1) as nat).contains(k)
                            ==> #[trigger] field_map@[k] == field_value(*config, dv, k),
                    forall|k: (Seq<char>, Seq<char>)|
                        d0.contains(k) && !loop_keys(*config, ty_name@, fs, i as int, (n - 1) as nat).contains(k)
                            ==> #[trigger] field_map@[k] == m0[k],
                decreases fs.len() - i,
            {
                let fname = ty.fields.key_at(i);
                let field = ty.fields.value_at(i);
                let ghost before = field_map@;
                assert(child_name(fs[i as int].1) == child_name(*field));
                populate_nested_field(config, field.ty_of.name(), field_map, defs, Ghost((n - 1) as nat));
                let ir = find_resolver(defs, ty_name, fname.as_str());
                let args = blueprint_args(field);
                let value = Field {
                    name: FieldName(fname.clone()),
                    type_of: field.ty_of.clone(),
                    ir,
                    args,
                };
                let key = FieldHash { name: FieldName(fname.clone()), id: TypeName(String::from_str(ty_name)) };
                proof {
                    lemma_sorted_lookup(fs, i as int);
                    assert(value@ == field_value(*config, dv, key@));
                }
                field_map.insert(key, value);
                proof {
                    lemma_reach_fields_push(*config, fs.take(i as int), fs[i as int], (n - 1) as nat);
                    assert(fs.take(i + 1) =~= fs.take(i as int).push(fs[i as int]));
                    assert(own_keys(ty_name@, fs.take(i + 1)) =~= own_keys(ty_name@, fs.take(i as int)).insert((fname@, ty_name@))) by {
                        assert forall|k: (Seq<char>, Seq<char>)| own_keys(ty_name@, fs.take(i + 1)).contains(k) implies own_keys(ty_name@, fs.take(i as int)).insert((fname@, ty_name@)).contains(k) by {
                            let j = choose|j: int| 0 <= j < fs.take(i + 1).len() && #[trigger] fs.take(i + 1)[j].0 == k.0;
                            if j < i {
                                assert(fs.take(i as int)[j] == fs.take(i + 1)[j]);
                            }
                        }
                        assert forall|k: (Seq<char>, Seq<char>)| own_keys(ty_name@, fs.take(i as int)).contains(k) implies own_keys(ty_name@, fs.take(i + 1)).contains(k) by {
                            let j = choose|j: int| 0 <= j < fs.take(i as int).len() && #[trigger] fs.take(i as int)[j].0 == k.0;
                            assert(fs.take(i as int)[j] == fs.take(i + 1)[j]);
                        }
                        assert(fs.take(i + 1)[i as int].0 == fname@);
                    }
                    let r1 = reach_fields(*config, fs.take(i as int), (n - 1) as nat);
                    let r2 = reach(*config, child_name(fs[i as int].1), (n - 1) as nat);
                    assert(field_keys(*config, r1.union(r2)) =~= field_keys(*config, r1).union(field_keys(*config, r2)));
                    let ki = loop_keys(*config, ty_name@, fs, i as int, (n - 1) as nat);
                    let kj = loop_keys(*config, ty_name@, fs, i + 1, (n - 1) as nat);
                    assert(kj =~= ki.union(field_keys(*config, r2)).insert(key@));
                    assert(field_map@.dom() =~= d0.union(kj));
                    assert forall|k: (Seq<char>, Seq<char>)| kj.contains(k) implies #[trigger] field_map@[k] == field_value(*config, dv, k) by {
                        if k != key@ && !field_keys(*config, r2).contains(k) {
                            assert(ki.contains(k));
                        }
                    }
                    assert forall|k: (Seq<char>, Seq<char>)| d0.contains(k) && !kj.contains(k) implies #[trigger] field_map@[k] == m0[k] by {
                        assert(!ki.contains(k));
                    }
                }
                i = i + 1;
            }
            proof {
                assert(fs.take(fs.len() as int) =~= fs);
                let rf = reach_fields(*config, fs, (n - 1) as nat);
                assert(reach(*config, ty_name@, n) == Set::empty().insert(ty_name@).union(rf));
                assert(field_keys(*config, Set::empty().insert(ty_name@)) =~= own_keys(ty_name@, fs)) by {
                    assert forall|k: (Seq<char>, Seq<char>)| field_keys(*config, Set::empty().insert(ty_name@)).contains(k) implies own_keys(ty_name@, fs).contains(k) by {
                        lemma_lookup_found(fs, k.0);
                    }
                    assert forall|k: (Seq<char>, Seq<char>)| own_keys(ty_name@, fs).contains(k) implies field_keys(*config, Set::empty().insert(ty_name@)).contains(k) by {
                        let j = choose|j: int| 0 <= j < fs.len() && #[trigger] fs[j].0 == k.0;
                        lemma_sorted_lookup(fs, j);
                    }
                }
                assert(field_keys(*config, Set::empty().insert(ty_name@).union(rf)) =~= field_keys(*config, Set::empty().insert(ty_name@)).union(field_keys(*config, rf)));
                assert(loop_keys(*config, ty_name@, fs, fs.len() as int, (n - 1) as nat) =~= field_keys(*config, reach(*config, ty_name@, n)));
                assert(field_map@.dom() =~= old(field_map)@.dom().union(
                    field_keys(*config, reach(*config, ty_name@, n)),
                ));
            }
        },
    }
}

/// The fields of all types reachable from the query type `qry`.
fn fields_to_map(qry: &str, config: &Config, defs: Vec<Definition>, Ghost(n): Ghost<nat>) -> (r: FieldMap)
    requires
        depth_ok(*config, qry@, n),
    ensures
        r@ == fields_spec(*config, definitions_view(defs@), qry@, n),
{
    let mut fields = FieldMap::new();
    populate_nested_field(config, qry, &mut fields, defs.as_slice(), Ghost(n));
    assert(fields@ =~= fields_spec(*config, definitions_view(defs@), qry@, n));
    fields
}

/// The fields of the blueprint of a configuration whose query type is `q`.
pub open spec fn blueprint_fields(config: Config, q: Seq<char>) -> Map<(Seq<char>, Seq<char>), FieldView> {
    fields_spec(config, config_definitions(config), q, choose|n: nat| depth_ok(config, q, n))
}

impl Blueprint {
    /// Builds the blueprint of a configuration: the fields of every type
    /// reachable from the query type, with their resolvers compiled, the
    /// server on 127.0.0.1 at the configured port, and the upstream with an
    /// HTTP cache of 10000 unless configured.
    ///
    /// Fails when the schema names no query type, or when a resolver has no
    /// base URL. The types reachable from the query type must form no cycle.
    pub fn try_from(config: &Config) -> (r: Result<Blueprint, BlueprintError>)
        requires
            config.schema.query is Some && config_compiles(*config) ==> acyclic_from(*config, config.schema.query->0@),
        ensures
            config.schema.query is None ==> r == Err::<Blueprint, BlueprintError>(BlueprintError::QueryNotFound),
            config.schema.query is Some && !config_compiles(*config) ==> r == Err::<Blueprint, BlueprintError>(BlueprintError::NoBaseUrl),
            config.schema.query is Some && config_compiles(*config) ==> r is Ok,
            r matches Ok(bp) ==> {
                &&& bp.fields@ == blueprint_fields(*config, config.schema.query->0@)
                &&& bp.server.host@ == seq![127u8, 0u8, 0u8, 1u8]
                &&& bp.server.port == config.server.port
                &&& bp.upstream.base_url == config.upstream.base_url
                &&& bp.upstream.http_cache == match config.upstream.http_cache {
                    Some(c) => c,
                    None => 10000u64,
                }
                &&& bp.schema == config.schema
            },
    {
        let qry = match &config.schema.query {
            Some(q) => q,
            None => {
                return Err(BlueprintError::QueryNotFound);
            },
        };
        let defs = match to_definitions(config) {
            Ok(d) => d,
            Err(e) => {
                return Err(e);
            },
        };
        let ghost n = choose|n: nat| depth_ok(*config, qry@, n);
        let ghost dv = definitions_view(defs@);
        let fields = fields_to_map(qry.as_str(), config, defs, Ghost(n));
        let server = Server { host: [127, 0, 0, 1], port: config.server.port };
        let upstream = Upstream {
            base_url: config.upstream.base_url.clone(),
            http_cache: match config.upstream.http_cache {
                Some(c) => c,
                None => 10000,
            },
        };
        assert(server.host@ =~= seq![127u8, 0u8, 0u8, 1u8]);
        assert(dv == config_definitions(*config));
        Ok(Blueprint { fields, server, upstream, schema: config.schema.clone() })
    }
}

/// Whether chains of at most `fuel` fields leave the types, from `name`.
fn depth_within(config: &Config, name: &str, fuel: usize) -> (r: bool)
    ensures
        r == depth_ok(*config, name@, fuel as nat),
    decreases fuel,
{
    match config.types.get(name) {
        None => true,
        Some(ty) => {
            if fuel == 0 {
                return false;
            }
            let mut i: usize = 0;
            while i < ty.fields.len()
                invariant
                    config.types.lookup(name@) == Some(*ty),
                    fuel > 0,
                    i <= ty.fields@.len(),
                    forall|j: int| 0 <= j < i ==> depth_ok(*config, #[trigger] child_name(ty.fields@[j].1), (fuel - 1) as nat),
                decreases ty.fields@.len() - i,
            {
                let field = ty.fields.value_at(i);
                if !depth_within(config, field.ty_of.name(), fuel - 1) {
                    assert(child_name(ty.fields@[i as int].1) == child_name(*field));
                    return false;
                }
                i = i + 1;
            }
            true
        },
    }
}

/// Tells whether the types reachable from `root` form no cycle, so that a
/// blueprint can be built from `root`: every chain of fields from `root`
/// passes through at most as many types as there are.
pub fn is_acyclic_from(config: &Config, root: &str) -> (r: bool)
    ensures
        r ==> acyclic_from(*config, root@),
        !r ==> !depth_ok(*config, root@, config.types@.len()),
{
    depth_within(config, root, config.types.len())
}

/// The resolver that a field of the configuration asks for: its `@http`
/// directive compiled, or none.
pub open spec fn config_resolver(config: Config, field: config::Field) -> Option<IRView> {
    match field.resolver {
        Some(config::Resolver::Http(h)) => compiled_http(config, h),
        None => None,
    }
}

/// Whether the maps of a configuration keep their keys in order: its types,
/// and the fields of each type.
pub open spec fn config_valid(config: Config) -> bool {
    &&& keys_sorted(config.types@)
    &&& forall|i: int| 0 <= i < config.types@.len() ==> keys_sorted(#[trigger] config.types@[i].1.fields@)
}

/// `first_named` finds the definition at `j` when no earlier one has its name.
proof fn lemma_first_named_at(defs: Seq<FieldDefinitionView>, f: Seq<char>, j: int)
    requires
        0 <= j < defs.len(),
        defs[j].name == f,
        forall|k: int| 0 <= k < j ==> #[trigger] defs[k].name != f,
    ensures
        first_named(defs, f) == Some(defs[j]),
    decreases j,
{
    if j > 0 {
        assert forall|k: int| 0 <= k < j - 1 implies #[trigger] defs.drop_first()[k].name != f by {
            assert(defs.drop_first()[k] == defs[k + 1]);
        }
        lemma_first_named_at(defs.drop_first(), f, j - 1);
    }
}

/// `find_field_definition` looks in the object definition at `i` when no
/// earlier definition has its name.
proof fn lemma_find_at(defs: Seq<DefinitionView>, ty: Seq<char>, f: Seq<char>, i: int)
    requires
        0 <= i < defs.len(),
        defs[i] matches DefinitionView::Object { name, fields } && name == ty && first_named(fields, f) is Some,
        forall|k: int| 0 <= k < i ==> (#[trigger] defs[k] matches DefinitionView::Object { name, .. } && name != ty),
    ensures
        find_field_definition(defs, ty, f) == first_named(defs[i]->Object_fields, f),
    decreases i,
{
    if i > 0 {
        assert forall|k: int| 0 <= k < i - 1 implies (#[trigger] defs.drop_first()[k] matches DefinitionView::Object { name, .. } && name != ty) by {
            assert(defs.drop_first()[k] == defs[k + 1]);
        }
        assert(defs.drop_first()[i - 1] == defs[i]);
        lemma_find_at(defs.drop_first(), ty, f, i - 1);
    }
}

/// In a sequence with keys in order, a key found by lookup is at a position
/// that no earlier entry's key equals.
proof fn lemma_lookup_position<V>(entries: Seq<(Seq<char>, V)>, key: Seq<char>) -> (j: int)
    requires
        keys_sorted(entries),
        seq_lookup_is_some(entries, key),
    ensures
        0 <= j < entries.len(),
        entries[j].0 == key,
        entries[j].1 == crate::map::seq_lookup(entries, key)->0,
        forall|k: int| 0 <= k < j ==> #[trigger] entries[k].0 != key,
{
    lemma_lookup_found(entries, key);
    let j = choose|j: int|
        0 <= j < entries.len() && entries[j].0 == key && #[trigger] entries[j].1 == crate::map::seq_lookup(entries, key)->0;
    assert forall|k: int| 0 <= k < j implies #[trigger] entries[k].0 != key by {
        lemma_key_lt_order(entries[k].0, entries[j].0, entries[j].0);
    }
    j
}

/// Whether a lookup finds the key.
pub open spec fn seq_lookup_is_some<V>(entries: Seq<(Seq<char>, V)>, key: Seq<char>) -> bool {
    crate::map::seq_lookup(entries, key) is Some
}

/// Every field of the blueprint is the field of the configuration that its
/// key names: the same name and type, and as resolver the field's `@http`
/// directive compiled.
pub proof fn lemma_blueprint_resolver(config: Config, q: Seq<char>, k: (Seq<char>, Seq<char>))
    requires
        config_valid(config),
        blueprint_fields(config, q).dom().contains(k),
    ensures
        ({
            let field = config.types.lookup(k.1)->0.fields.lookup(k.0)->0;
            &&& blueprint_fields(config, q)[k].ir == config_resolver(config, field)
            &&& blueprint_fields(config, q)[k].type_of == field.ty_of@
            &&& blueprint_fields(config, q)[k].name == k.0
        }),
{
    let (f, ty) = k;
    let defs = config_definitions(config);
    let i = lemma_lookup_position(config.types@, ty);
    let t = config.types@[i].1;
    assert(keys_sorted(t.fields@));
    let j = lemma_lookup_position(t.fields@, f);
    let field = t.fields@[j].1;
    let fdefs = type_field_definitions(config, t);
    assert(fdefs[j] == field_definition(config, f, field));
    assert forall|m: int| 0 <= m < j implies #[trigger] fdefs[m].name != f by {
        assert(fdefs[m] == field_definition(config, t.fields@[m].0, t.fields@[m].1));
    }
    lemma_first_named_at(fdefs, f, j);
    assert(defs[i] == DefinitionView::Object { name: ty, fields: fdefs });
    assert forall|m: int| 0 <= m < i implies (#[trigger] defs[m] matches DefinitionView::Object { name, .. } && name != ty) by {
        assert(defs[m] == DefinitionView::Object { name: config.types@[m].0, fields: type_field_definitions(config, config.types@[m].1) });
    }
    lemma_find_at(defs, ty, f, i);
}

} // verus!
