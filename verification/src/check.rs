//! What a schema must satisfy before code is generated for it: every type
//! has a shape that can be rendered, every name refers to a definition, and
//! the aliases can be put in an order of emission.

use crate::deps::{
    alias_order, alias_reference, core_of, enum_reference, has_cycle, order_aliases,
};
use crate::error::GenerationError;
use crate::schema::{
    alias_views, enum_views, index_view, method_views, signal_views, AliasView, EnumAlias,
    EnumView, Method, ObjectAlias, PrimitiveKind, Schema, SchemaView, Signal, TypeAnnotation,
    TypeView,
};
use vstd::prelude::*;

verus! {

/// A type that a value can have by itself: a primitive other than void, or
/// a named type.
pub open spec fn is_value(t: TypeView) -> bool {
    match t {
        TypeView::Primitive(k) => k != PrimitiveKind::Void,
        TypeView::ObjectAlias(_) => true,
        TypeView::EnumAlias(_) => true,
        _ => false,
    }
}

/// A type that a parameter or a property can have: a value type, or a
/// nullable wrapper of one.
pub open spec fn is_data(t: TypeView) -> bool {
    match t {
        TypeView::Nullable(inner) => is_value(*inner),
        _ => is_value(t),
    }
}

/// A type that a function can return: a data type or void.
pub open spec fn is_result(t: TypeView) -> bool {
    is_data(t) || t == TypeView::Primitive(PrimitiveKind::Void)
}

/// A type that a method or signal can have: a function of data types that
/// returns a result type.
pub open spec fn signature_ok(t: TypeView) -> bool {
    match t {
        TypeView::Function { params, return_type } => {
            &&& forall|i: int| 0 <= i < params.len() ==> is_data((#[trigger] params[i]).type_annotation)
            &&& is_result(*return_type)
        },
        _ => false,
    }
}

/// Every property of the alias has a data type.
pub open spec fn alias_ok(a: AliasView) -> bool {
    forall|i: int| 0 <= i < a.properties.len() ==> is_data((#[trigger] a.properties[i]).type_annotation)
}

/// Every type in the schema has a shape that can be rendered.
pub open spec fn well_formed(s: SchemaView) -> bool {
    &&& forall|i: int| 0 <= i < s.methods.len() ==> signature_ok((#[trigger] s.methods[i]).type_annotation)
    &&& forall|i: int| 0 <= i < s.signals.len() ==> signature_ok((#[trigger] s.signals[i]).type_annotation)
    &&& forall|i: int| 0 <= i < s.aliases.len() ==> alias_ok(#[trigger] s.aliases[i])
}

/// The schema defines an alias of this name.
pub open spec fn declares_alias(aliases: Seq<AliasView>, name: Seq<char>) -> bool {
    exists|i: int| 0 <= i < aliases.len() && (#[trigger] aliases[i]).name == name
}

/// The schema defines an enum of this name.
pub open spec fn declares_enum(enums: Seq<EnumView>, name: Seq<char>) -> bool {
    exists|i: int| 0 <= i < enums.len() && (#[trigger] enums[i]).name == name
}

/// The named type that `t` refers to, if any, is defined in the schema.
pub open spec fn type_resolved(s: SchemaView, t: TypeView) -> bool {
    match core_of(t) {
        TypeView::ObjectAlias(a) => declares_alias(s.aliases, a.name),
        TypeView::EnumAlias(e) => declares_enum(s.enums, e.name),
        _ => true,
    }
}

/// Every named type that the function type refers to is defined.
pub open spec fn signature_resolved(s: SchemaView, t: TypeView) -> bool {
    match t {
        TypeView::Function { params, return_type } => {
            &&& forall|i: int|
                0 <= i < params.len() ==> type_resolved(s, (#[trigger] params[i]).type_annotation)
            &&& type_resolved(s, *return_type)
        },
        _ => true,
    }
}

/// Every named type that a property of the alias refers to is defined.
pub open spec fn alias_resolved(s: SchemaView, a: AliasView) -> bool {
    forall|i: int|
        0 <= i < a.properties.len() ==> type_resolved(s, (#[trigger] a.properties[i]).type_annotation)
}

/// Every name in the schema refers to a definition.
pub open spec fn resolved(s: SchemaView) -> bool {
    &&& forall|i: int|
        0 <= i < s.methods.len() ==> signature_resolved(s, (#[trigger] s.methods[i]).type_annotation)
    &&& forall|i: int|
        0 <= i < s.signals.len() ==> signature_resolved(s, (#[trigger] s.signals[i]).type_annotation)
    &&& forall|i: int| 0 <= i < s.aliases.len() ==> alias_resolved(s, #[trigger] s.aliases[i])
}

/// Why no code can be generated for the schema, if anything stands against
/// it: a type that cannot be rendered; else a name without a definition;
/// else aliases that refer to each other in a circle.
pub open spec fn schema_error(s: SchemaView) -> Option<GenerationError> {
    if !well_formed(s) {
        Some(GenerationError::MalformedSignature)
    } else if !resolved(s) {
        Some(GenerationError::UnresolvedTypeReference)
    } else if has_cycle(s.aliases) {
        Some(GenerationError::CyclicTypeDependency)
    } else {
        None
    }
}

/// What holds of the views of a function type's parts.
pub proof fn lemma_function_view(t: TypeAnnotation)
    requires
        t is Function,
    ensures
        t@ is Function,
        t@->params.len() == t->params.len(),
        forall|i: int|
            0 <= i < t->params.len() ==> (#[trigger] t@->params[i]).type_annotation
                == t->params[i].type_annotation@ && t@->params[i].name == t->params[i].name@,
        *t@->return_type == t->return_type@,
{
}

/// What holds of the views of an alias's properties.
pub proof fn lemma_alias_view(a: ObjectAlias)
    ensures
        a@.name == a.name@,
        a@.properties.len() == a.properties.len(),
        forall|i: int|
            0 <= i < a.properties.len() ==> (#[trigger] a@.properties[i]).type_annotation
                == a.properties[i].type_annotation@ && a@.properties[i].name
                == a.properties[i].name@,
{
}

/// Whether `t` is a value type.
pub fn is_value_type(t: &TypeAnnotation) -> (b: bool)
    ensures
        b == is_value(t@),
{
    match t {
        TypeAnnotation::Primitive(k) => match k {
            PrimitiveKind::Void => false,
            _ => true,
        },
        TypeAnnotation::ObjectAlias(_) => true,
        TypeAnnotation::EnumAlias(_) => true,
        _ => false,
    }
}

/// Whether `t` is a data type.
pub fn is_data_type(t: &TypeAnnotation) -> (b: bool)
    ensures
        b == is_data(t@),
{
    match t {
        TypeAnnotation::Nullable(inner) => is_value_type(inner),
        _ => is_value_type(t),
    }
}

/// Whether `t` is a result type.
pub fn is_result_type(t: &TypeAnnotation) -> (b: bool)
    ensures
        b == is_result(t@),
{
    match t {
        TypeAnnotation::Primitive(k) => true,
        _ => is_data_type(t),
    }
}

/// Whether `t` is the type of a method or signal that can be rendered.
pub fn signature_is_ok(t: &TypeAnnotation) -> (b: bool)
    ensures
        b == signature_ok(t@),
{
    match t {
        TypeAnnotation::Function { params, return_type } => {
            proof {
                lemma_function_view(*t);
            }
            let mut i: usize = 0;
            while i < params.len()
                invariant
                    i <= params.len(),
                    t@ is Function,
                    t@->params.len() == params.len(),
                    forall|k: int|
                        0 <= k < params.len() ==> (#[trigger] t@->params[k]).type_annotation
                            == params[k].type_annotation@,
                    forall|k: int| 0 <= k < i ==> is_data((#[trigger] t@->params[k]).type_annotation),
                decreases params.len() - i,
            {
                if !is_data_type(&params[i].type_annotation) {
                    assert(!is_data(t@->params[i as int].type_annotation));
                    return false;
                }
                i += 1;
            }
            is_result_type(return_type)
        },
        _ => false,
    }
}

/// Whether every property of `a` has a data type.
pub fn alias_is_ok(a: &ObjectAlias) -> (b: bool)
    ensures
        b == alias_ok(a@),
{
    proof {
        lemma_alias_view(*a);
    }
    let mut i: usize = 0;
    while i < a.properties.len()
        invariant
            i <= a.properties.len(),
            a@.properties.len() == a.properties.len(),
            forall|k: int|
                0 <= k < a.properties.len() ==> (#[trigger] a@.properties[k]).type_annotation
                    == a.properties[k].type_annotation@,
            forall|k: int| 0 <= k < i ==> is_data((#[trigger] a@.properties[k]).type_annotation),
        decreases a.properties.len() - i,
    {
        if !is_data_type(&a.properties[i].type_annotation) {
            assert(!is_data(a@.properties[i as int].type_annotation));
            return false;
        }
        i += 1;
    }
    true
}

fn methods_well_formed(methods: &Vec<Method>) -> (b: bool)
    ensures
        b == forall|i: int|
            0 <= i < methods.len() ==> signature_ok(
                (#[trigger] method_views(methods@)[i]).type_annotation,
            ),
{
    let mut i: usize = 0;
    while i < methods.len()
        invariant
            i <= methods.len(),
            forall|k: int|
                0 <= k < i ==> signature_ok((#[trigger] method_views(methods@)[k]).type_annotation),
        decreases methods.len() - i,
    {
        assert(method_views(methods@)[i as int].type_annotation == methods[i as int].type_annotation@);
        if !signature_is_ok(&methods[i].type_annotation) {
            return false;
        }
        i += 1;
    }
    true
}

fn signals_well_formed(signals: &Vec<Signal>) -> (b: bool)
    ensures
        b == forall|i: int|
            0 <= i < signals.len() ==> signature_ok(
                (#[trigger] signal_views(signals@)[i]).type_annotation,
            ),
{
    let mut i: usize = 0;
    while i < signals.len()
        invariant
            i <= signals.len(),
            forall|k: int|
                0 <= k < i ==> signature_ok((#[trigger] signal_views(signals@)[k]).type_annotation),
        decreases signals.len() - i,
    {
        assert(signal_views(signals@)[i as int].type_annotation == signals[i as int].type_annotation@);
        if !signature_is_ok(&signals[i].type_annotation) {
            return false;
        }
        i += 1;
    }
    true
}

fn aliases_well_formed(aliases: &Vec<ObjectAlias>) -> (b: bool)
    ensures
        b == forall|i: int| 0 <= i < aliases.len() ==> alias_ok(#[trigger] alias_views(aliases@)[i]),
{
    let mut i: usize = 0;
    while i < aliases.len()
        invariant
            i <= aliases.len(),
            forall|k: int| 0 <= k < i ==> alias_ok(#[trigger] alias_views(aliases@)[k]),
        decreases aliases.len() - i,
    {
        assert(alias_views(aliases@)[i as int] == aliases[i as int]@);
        if !alias_is_ok(&aliases[i]) {
            return false;
        }
        i += 1;
    }
    true
}

/// Whether every type in the schema has a shape that can be rendered.
pub fn is_well_formed(schema: &Schema) -> (b: bool)
    ensures
        b == well_formed(schema@),
{
    methods_well_formed(schema.methods()) && signals_well_formed(schema.signals())
        && aliases_well_formed(schema.aliases())
}

/// Whether `aliases` holds an alias named `name`.
pub fn has_alias(aliases: &Vec<ObjectAlias>, name: &String) -> (b: bool)
    ensures
        b == declares_alias(alias_views(aliases@), name@),
{
    let mut i: usize = 0;
    while i < aliases.len()
        invariant
            i <= aliases.len(),
            forall|k: int| 0 <= k < i ==> (#[trigger] alias_views(aliases@)[k]).name != name@,
        decreases aliases.len() - i,
    {
        assert(alias_views(aliases@)[i as int].name == aliases[i as int].name@);
        if aliases[i].name == *name {
            return true;
        }
        i += 1;
    }
    false
}

/// Whether `enums` holds an enum named `name`.
pub fn has_enum(enums: &Vec<EnumAlias>, name: &String) -> (b: bool)
    ensures
        b == declares_enum(enum_views(enums@), name@),
{
    let mut i: usize = 0;
    while i < enums.len()
        invariant
            i <= enums.len(),
            forall|k: int| 0 <= k < i ==> (#[trigger] enum_views(enums@)[k]).name != name@,
        decreases enums.len() - i,
    {
        assert(enum_views(enums@)[i as int].name == enums[i as int].name@);
        if enums[i].name == *name {
            return true;
        }
        i += 1;
    }
    false
}

fn type_is_resolved(schema: &Schema, t: &TypeAnnotation) -> (b: bool)
    ensures
        b == type_resolved(schema@, t@),
{
    match alias_reference(t) {
        Some(name) => has_alias(schema.aliases(), name),
        None => match enum_reference(t) {
            Some(name) => has_enum(schema.enums(), name),
            None => true,
        },
    }
}

fn signature_is_resolved(schema: &Schema, t: &TypeAnnotation) -> (b: bool)
    ensures
        b == signature_resolved(schema@, t@),
{
    match t {
        TypeAnnotation::Function { params, return_type } => {
            proof {
                lemma_function_view(*t);
            }
            let mut i: usize = 0;
            while i < params.len()
                invariant
                    i <= params.len(),
                    t@ is Function,
                    t@->params.len() == params.len(),
                    forall|k: int|
                        0 <= k < params.len() ==> (#[trigger] t@->params[k]).type_annotation
                            == params[k].type_annotation@,
                    forall|k: int|
                        0 <= k < i ==> type_resolved(
                            schema@,
                            (#[trigger] t@->params[k]).type_annotation,
                        ),
                decreases params.len() - i,
            {
                if !type_is_resolved(schema, &params[i].type_annotation) {
                    assert(!type_resolved(schema@, t@->params[i as int].type_annotation));
                    return false;
                }
                i += 1;
            }
            type_is_resolved(schema, return_type)
        },
        _ => true,
    }
}

fn alias_is_resolved(schema: &Schema, a: &ObjectAlias) -> (b: bool)
    ensures
        b == alias_resolved(schema@, a@),
{
    proof {
        lemma_alias_view(*a);
    }
    let mut i: usize = 0;
    while i < a.properties.len()
        invariant
            i <= a.properties.len(),
            a@.properties.len() == a.properties.len(),
            forall|k: int|
                0 <= k < a.properties.len() ==> (#[trigger] a@.properties[k]).type_annotation
                    == a.properties[k].type_annotation@,
            forall|k: int|
                0 <= k < i ==> type_resolved(schema@, (#[trigger] a@.properties[k]).type_annotation),
        decreases a.properties.len() - i,
    {
        if !type_is_resolved(schema, &a.properties[i].type_annotation) {
            assert(!type_resolved(schema@, a@.properties[i as int].type_annotation));
            return false;
        }
        i += 1;
    }
    true
}

/// Whether every name in the schema refers to a definition.
pub fn is_resolved(schema: &Schema) -> (b: bool)
    ensures
        b == resolved(schema@),
{
    let methods = schema.methods();
    let mut i: usize = 0;
    while i < methods.len()
        invariant
            i <= methods.len(),
            method_views(methods@) == schema@.methods,
            forall|k: int|
                0 <= k < i ==> signature_resolved(
                    schema@,
                    (#[trigger] schema@.methods[k]).type_annotation,
                ),
        decreases methods.len() - i,
    {
        assert(schema@.methods[i as int].type_annotation == methods[i as int].type_annotation@);
        if !signature_is_resolved(schema, &methods[i].type_annotation) {
            return false;
        }
        i += 1;
    }
    let signals = schema.signals();
    let mut j: usize = 0;
    while j < signals.len()
        invariant
            j <= signals.len(),
            signal_views(signals@) == schema@.signals,
            forall|k: int|
                0 <= k < j ==> signature_resolved(
                    schema@,
                    (#[trigger] schema@.signals[k]).type_annotation,
                ),
        decreases signals.len() - j,
    {
        assert(schema@.signals[j as int].type_annotation == signals[j as int].type_annotation@);
        if !signature_is_resolved(schema, &signals[j].type_annotation) {
            return false;
        }
        j += 1;
    }
    let aliases = schema.aliases();
    let mut a: usize = 0;
    while a < aliases.len()
        invariant
            a <= aliases.len(),
            alias_views(aliases@) == schema@.aliases,
            forall|k: int| 0 <= k < a ==> alias_resolved(schema@, #[trigger] schema@.aliases[k]),
        decreases aliases.len() - a,
    {
        assert(schema@.aliases[a as int] == aliases[a as int]@);
        if !alias_is_resolved(schema, &aliases[a]) {
            return false;
        }
        a += 1;
    }
    true
}

/// Checks the schema and, where nothing stands against it, gives its aliases
/// by number in the order of emission.
pub fn check_schema(schema: &Schema) -> (res: Result<Vec<usize>, GenerationError>)
    ensures
        match res {
            Ok(order) => schema_error(schema@) is None && alias_order(schema@.aliases) == Some(
                index_view(order@),
            ),
            Err(e) => schema_error(schema@) == Some(e),
        },
{
    if !is_well_formed(schema) {
        return Err(GenerationError::MalformedSignature);
    }
    if !is_resolved(schema) {
        return Err(GenerationError::UnresolvedTypeReference);
    }
    order_aliases(schema.aliases())
}

} // verus!
