use vstd::prelude::*;

use crate::blueprint::operators::{resolver_compiles, update_http, with_http};
use crate::blueprint::{
    BlueprintError, Definition, DefinitionView, FieldDefinition, FieldDefinitionView,
    InputFieldDefinition, InputFieldDefinitionView, InputObjectTypeDefinition,
    InterfaceTypeDefinition, ObjectTypeDefinition, definitions_view, field_defs_view,
    input_fields_view, DirectiveView,
};
use crate::config;
use crate::config::{Config, Type1};
use crate::map::{keys_sorted, lemma_sorted_lookup};
use crate::wrapping_type::TypeView;

verus! {

/// The argument definitions of a field: one per argument, in order of name.
pub open spec fn args_definitions(field: config::Field) -> Seq<InputFieldDefinitionView> {
    Seq::new(
        field.args@.len(),
        |i: int| InputFieldDefinitionView { name: field.args@[i].0, of_type: field.args@[i].1.type_of@ },
    )
}

/// The definition `def` with the name, the arguments and the type of a field.
pub open spec fn with_args(field_name: Seq<char>, field: config::Field, def: FieldDefinitionView) -> FieldDefinitionView {
    FieldDefinitionView {
        name: field_name,
        args: args_definitions(field),
        of_type: field.ty_of@,
        ..def
    }
}

/// The definition that a field starts from.
pub open spec fn empty_field_definition() -> FieldDefinitionView {
    FieldDefinitionView {
        name: Seq::empty(),
        args: Seq::empty(),
        of_type: TypeView::Named { name: Seq::empty(), non_null: false },
        resolver: None,
        directives: Seq::empty(),
    }
}

/// The definition of a field of the configuration.
pub open spec fn field_definition(config: Config, field_name: Seq<char>, field: config::Field) -> FieldDefinitionView {
    with_http(config, field, with_args(field_name, field, empty_field_definition()))
}

/// Whether the resolvers of all fields of a type compile.
pub open spec fn type_compiles(config: Config, ty: Type1) -> bool {
    forall|i: int| 0 <= i < ty.fields@.len() ==> resolver_compiles(config, #[trigger] ty.fields@[i].1)
}

/// Whether the resolvers of all fields of all types compile.
pub open spec fn config_compiles(config: Config) -> bool {
    forall|i: int| 0 <= i < config.types@.len() ==> type_compiles(config, #[trigger] config.types@[i].1)
}

/// The definitions of the fields of a type, in order of name.
pub open spec fn type_field_definitions(config: Config, ty: Type1) -> Seq<FieldDefinitionView> {
    Seq::new(ty.fields@.len(), |i: int| field_definition(config, ty.fields@[i].0, ty.fields@[i].1))
}

/// The definition of each type of the configuration, as an object type, in
/// order of name.
pub open spec fn config_definitions(config: Config) -> Seq<DefinitionView> {
    Seq::new(
        config.types@.len(),
        |i: int|
            DefinitionView::Object {
                name: config.types@[i].0,
                fields: type_field_definitions(config, config.types@[i].1),
            },
    )
}

/// Builds the definitions of all types of a configuration; fails when a
/// resolver has no base URL.
pub fn to_definitions(config: &Config) -> (r: Result<Vec<Definition>, BlueprintError>)
    ensures
        match r {
            Ok(defs) => config_compiles(*config) && definitions_view(defs@) == config_definitions(*config),
            Err(e) => !config_compiles(*config) && e == BlueprintError::NoBaseUrl,
        },
{
    proof {
        use_type_invariant(&config.types);
    }
    let mut definitions: Vec<Definition> = Vec::new();
    let mut i: usize = 0;
    while i < config.types.len()
        invariant
            i <= config.types@.len(),
            keys_sorted(config.types@),
            definitions.len() == i,
            forall|j: int| 0 <= j < i ==> type_compiles(*config, #[trigger] config.types@[j].1),
            forall|j: int| 0 <= j < i ==> #[trigger] definitions@[j]@ == config_definitions(*config)[j],
        decreases config.types@.len() - i,
    {
        let ty_name = config.types.key_at(i);
        let ty = config.types.value_at(i);
        proof {
            lemma_sorted_lookup(config.types@, i as int);
        }
        match to_object_type_definition(ty_name.as_str(), ty, config) {
            Ok(def) => {
                definitions.push(def);
            },
            Err(e) => {
                return Err(e);
            },
        }
        i = i + 1;
    }
    assert(definitions_view(definitions@) =~= config_definitions(*config));
    Ok(definitions)
}

/// The interface type with the name and the fields of an object type.
fn to_interface_type_definition(definition: ObjectTypeDefinition) -> (r: Result<Definition, BlueprintError>)
    ensures
        r matches Ok(Definition::Interface(d)) && d.name == definition.name && d.fields == definition.fields,
{
    Ok(Definition::Interface(InterfaceTypeDefinition { name: definition.name, fields: definition.fields }))
}

/// The input type with the name of an object type, and an input field for
/// each of its fields, of the same name and type.
fn to_input_object_type_definition(definition: ObjectTypeDefinition) -> (r: Result<Definition, BlueprintError>)
    ensures
        r matches Ok(d) && d@ == (DefinitionView::InputObject {
            name: definition.name@,
            input_fields: Seq::new(
                definition.fields@.len(),
                |i: int| InputFieldDefinitionView {
                    name: definition.fields@[i].name@,
                    of_type: definition.fields@[i].of_type@,
                },
            ),
        }),
{
    let mut fields: Vec<InputFieldDefinition> = Vec::new();
    let mut i: usize = 0;
    while i < definition.fields.len()
        invariant
            i <= definition.fields.len(),
            fields.len() == i,
            forall|j: int| 0 <= j < i ==> #[trigger] fields@[j]@ == (InputFieldDefinitionView {
                name: definition.fields@[j].name@,
                of_type: definition.fields@[j].of_type@,
            }),
        decreases definition.fields.len() - i,
    {
        let f = InputFieldDefinition {
            name: definition.fields[i].name.clone(),
            of_type: definition.fields[i].of_type.clone(),
        };
        fields.push(f);
        i = i + 1;
    }
    let d = Definition::InputObject(InputObjectTypeDefinition { name: definition.name, fields });
    proof {
        let ghost expected = Seq::new(
            definition.fields@.len(),
            |i: int| InputFieldDefinitionView {
                name: definition.fields@[i].name@,
                of_type: definition.fields@[i].of_type@,
            },
        );
        assert(input_fields_view(fields@) =~= expected);
    }
    Ok(d)
}

/// The object type definition of the type `name`.
fn to_object_type_definition(name: &str, type_of: &Type1, config_module: &Config) -> (r: Result<
    Definition,
    BlueprintError,
>)
    requires
        config_module.types.lookup(name@) == Some(*type_of),
    ensures
        match r {
            Ok(d) => type_compiles(*config_module, *type_of) && d@ == (DefinitionView::Object {
                name: name@,
                fields: type_field_definitions(*config_module, *type_of),
            }),
            Err(e) => !type_compiles(*config_module, *type_of) && e == BlueprintError::NoBaseUrl,
        },
{
    match to_fields(name, type_of, config_module) {
        Ok(fields) => Ok(
            Definition::Object(ObjectTypeDefinition { name: String::from_str(name), fields }),
        ),
        Err(e) => Err(e),
    }
}

/// The definitions of the fields of the type `name`; none when the
/// configuration has no type of that name (a scalar).
fn to_fields(name: &str, ty: &Type1, config: &Config) -> (r: Result<Vec<FieldDefinition>, BlueprintError>)
    ensures
        config.types.lookup(name@) is None ==> (r matches Ok(v) && v@.len() == 0),
        config.types.lookup(name@) is Some ==> match r {
            Ok(v) => type_compiles(*config, *ty) && field_defs_view(v@) == type_field_definitions(*config, *ty),
            Err(e) => !type_compiles(*config, *ty) && e == BlueprintError::NoBaseUrl,
        },
{
    if !config.types.contains_key(name) {
        return Ok(Vec::new());
    }
    let mut fields: Vec<FieldDefinition> = Vec::new();
    let mut i: usize = 0;
    while i < ty.fields.len()
        invariant
            config.types.lookup(name@) is Some,
            i <= ty.fields@.len(),
            fields.len() == i,
            forall|j: int| 0 <= j < i ==> resolver_compiles(*config, #[trigger] ty.fields@[j].1),
            forall|j: int| 0 <= j < i ==> #[trigger] fields@[j]@ == type_field_definitions(*config, *ty)[j],
        decreases ty.fields@.len() - i,
    {
        let field_name = ty.fields.key_at(i);
        let field = ty.fields.value_at(i);
        match to_field_definition(field_name.as_str(), field, config) {
            Ok(def) => {
                fields.push(def);
            },
            Err(e) => {
                return Err(e);
            },
        }
        i = i + 1;
    }
    assert(field_defs_view(fields@) =~= type_field_definitions(*config, *ty));
    Ok(fields)
}

/// The definition of a field: its name, arguments and type, and its
/// resolver compiled.
fn to_field_definition(field_name: &str, field: &config::Field, config: &Config) -> (r: Result<
    FieldDefinition,
    BlueprintError,
>)
    ensures
        match r {
            Ok(d) => resolver_compiles(*config, *field) && d@ == field_definition(*config, field_name@, *field),
            Err(e) => !resolver_compiles(*config, *field) && e == BlueprintError::NoBaseUrl,
        },
{
    let def = FieldDefinition::default();
    let def = update_args(field_name, field, def);
    update_http(field, config, def)
}

/// Sets the name, the arguments and the type of a field definition from the
/// field.
fn update_args(field_name: &str, field: &config::Field, def: FieldDefinition) -> (r: FieldDefinition)
    ensures
        r@ == with_args(field_name@, *field, def@),
{
    let mut def = def;
    let mut args: Vec<InputFieldDefinition> = Vec::new();
    let mut i: usize = 0;
    while i < field.args.len()
        invariant
            i <= field.args@.len(),
            args.len() == i,
            forall|j: int| 0 <= j < i ==> #[trigger] args@[j]@ == args_definitions(*field)[j],
        decreases field.args@.len() - i,
    {
        let name = field.args.key_at(i).clone();
        let arg = field.args.value_at(i);
        args.push(InputFieldDefinition { name, of_type: arg.type_of.clone() });
        i = i + 1;
    }
    def.name = String::from_str(field_name);
    def.args = args;
    def.of_type = field.ty_of.clone();
    assert(def@.args =~= args_definitions(*field));
    def
}

} // verus!
