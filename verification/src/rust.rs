//! The Rust side of the generated code: the interface trait, its stub
//! implementation, the bridge declarations and the conversions of each
//! named type.

use crate::check::{lemma_alias_view, lemma_function_view, signature_ok, well_formed};
use crate::schema::{
    alias_views, enum_views, index_view, method_views, AliasView, EnumAlias, EnumView, Method,
    MethodView, ObjectAlias, Param, ParamView, PrimitiveKind, Schema, SchemaView, TypeAnnotation,
    TypeView,
};
use crate::text::{
    join, join_strings, lemma_views_push, pascal_case, pascal_case_of, snake_case, snake_case_of,
    views,
};
use vstd::prelude::*;
use vstd::string::StringExecFns;

verus! {

/// The Rust name of a primitive type.
pub open spec fn primitive_rs(k: PrimitiveKind) -> Seq<char> {
    match k {
        PrimitiveKind::Boolean => "bool"@,
        PrimitiveKind::Number => "f64"@,
        PrimitiveKind::String => "String"@,
        PrimitiveKind::Void => "()"@,
    }
}

/// The Rust name of a primitive or named type.
pub open spec fn value_rs(t: TypeView) -> Seq<char> {
    match t {
        TypeView::Primitive(k) => primitive_rs(k),
        TypeView::ObjectAlias(a) => a.name,
        TypeView::EnumAlias(e) => e.name,
        _ => Seq::empty(),
    }
}

/// The type as the interface trait names it: a nullable type is an `Option`.
pub open spec fn rs_type_of(t: TypeView) -> Seq<char> {
    match t {
        TypeView::Nullable(inner) => "Option<"@ + value_rs(*inner) + ">"@,
        _ => value_rs(t),
    }
}

/// The word for a type inside the name of its nullable wrapper.
pub open spec fn label_of(t: TypeView) -> Seq<char> {
    match t {
        TypeView::Primitive(PrimitiveKind::Boolean) => "Boolean"@,
        TypeView::Primitive(PrimitiveKind::Number) => "Number"@,
        TypeView::Primitive(PrimitiveKind::String) => "String"@,
        TypeView::Primitive(PrimitiveKind::Void) => "Void"@,
        TypeView::ObjectAlias(a) => a.name,
        TypeView::EnumAlias(e) => e.name,
        _ => Seq::empty(),
    }
}

/// The type as it crosses the bridge: a nullable type is a wrapper type
/// named after what it wraps.
pub open spec fn bridge_type_of(t: TypeView) -> Seq<char> {
    match t {
        TypeView::Nullable(inner) => "Nullable"@ + label_of(*inner),
        _ => value_rs(t),
    }
}

/// The type of a parameter or result, on the trait or on the bridge.
pub open spec fn type_text(t: TypeView, bridged: bool) -> Seq<char> {
    if bridged {
        bridge_type_of(t)
    } else {
        rs_type_of(t)
    }
}

/// The type of a parameter, on the trait or on the bridge: across the
/// bridge an alias is handed over by reference.
pub open spec fn param_type_text(t: TypeView, bridged: bool) -> Seq<char> {
    if bridged && t is ObjectAlias {
        "&"@ + type_text(t, bridged)
    } else {
        type_text(t, bridged)
    }
}

/// One parameter: its name in snake case, a colon and its type.
pub open spec fn param_text(p: ParamView, bridged: bool) -> Seq<char> {
    snake_case_of(p.name) + ": "@ + param_type_text(p.type_annotation, bridged)
}

/// The parameters, separated by commas.
pub open spec fn params_text(params: Seq<ParamView>, bridged: bool) -> Seq<char> {
    join(Seq::new(params.len(), |i: int| param_text(params[i], bridged)), ", "@)
}

/// The signature of a method in the interface trait.
pub open spec fn impl_sig_of(m: MethodView) -> Seq<char> {
    "fn "@ + snake_case_of(m.name) + "("@ + params_text(m.type_annotation->params, false) + ") -> "@
        + rs_type_of(*m.type_annotation->return_type)
}

/// The name of the interface trait of a module.
pub open spec fn trait_name_of(module: Seq<char>) -> Seq<char> {
    pascal_case_of(module + "Spec"@)
}

/// One line of the interface trait.
pub open spec fn spec_line_of(m: MethodView) -> Seq<char> {
    "    "@ + impl_sig_of(m) + ";"@
}

/// The interface trait: one signature for each method, in declaration order.
pub open spec fn spec_code_of(s: SchemaView) -> Seq<char> {
    "pub trait "@ + trait_name_of(s.module_name) + " {\n"@ + join(
        Seq::new(s.methods.len(), |i: int| spec_line_of(s.methods[i])),
        "\n"@,
    ) + "\n}"@
}

/// One method of the stub implementation: its body only says that it is
/// not implemented.
pub open spec fn stub_of(m: MethodView) -> Seq<char> {
    "    "@ + impl_sig_of(m) + " {\n        unimplemented!();\n    }"@
}

/// The stub implementation of the interface trait.
pub open spec fn impl_code_of(s: SchemaView) -> Seq<char> {
    "use crate::{ffi::"@ + snake_case_of(s.module_name) + "::*, generated::*};\n\npub struct "@
        + pascal_case_of(s.module_name) + ";\n\nimpl "@ + trait_name_of(s.module_name) + " for "@
        + pascal_case_of(s.module_name) + " {\n"@ + join(
        Seq::new(s.methods.len(), |i: int| stub_of(s.methods[i])),
        "\n\n"@,
    ) + "\n}"@
}

/// The name of the bridge function of a method: the module and the method
/// in snake case.
pub open spec fn bridge_fn_name_of(module: Seq<char>, m: MethodView) -> Seq<char> {
    snake_case_of(module) + "_"@ + snake_case_of(m.name)
}

/// The declaration of a method's bridge function.
pub open spec fn extern_sig_of(module: Seq<char>, m: MethodView) -> Seq<char> {
    "#[cxx_name = \""@ + m.name + "\"]\nfn "@ + bridge_fn_name_of(module, m) + "("@ + params_text(
        m.type_annotation->params,
        true,
    ) + ") -> "@ + bridge_type_of(*m.type_annotation->return_type) + ";"@
}

/// The arguments with which a bridge function calls the module's method.
pub open spec fn args_text(params: Seq<ParamView>) -> Seq<char> {
    join(Seq::new(params.len(), |i: int| snake_case_of(params[i].name) + ".into()"@), ", "@)
}

/// The bridge function of a method: it hands its arguments on to the
/// module's method and the result back.
pub open spec fn bridge_impl_of(module: Seq<char>, m: MethodView) -> Seq<char> {
    "fn "@ + bridge_fn_name_of(module, m) + "("@ + params_text(m.type_annotation->params, true)
        + ") -> "@ + bridge_type_of(*m.type_annotation->return_type) + " {\n    "@
        + pascal_case_of(module) + "::"@ + snake_case_of(m.name) + "("@ + args_text(
        m.type_annotation->params,
    ) + ").into()\n}"@
}

/// The bridge declarations of a schema, one of each kind for each method.
#[derive(Debug, PartialEq, Eq)]
pub struct RsCxxBridge {
    pub func_extern_sigs: Vec<String>,
    pub func_impls: Vec<String>,
}

pub struct RsCxxBridgeView {
    pub func_extern_sigs: Seq<Seq<char>>,
    pub func_impls: Seq<Seq<char>>,
}

impl View for RsCxxBridge {
    type V = RsCxxBridgeView;

    open spec fn view(&self) -> RsCxxBridgeView {
        RsCxxBridgeView {
            func_extern_sigs: views(self.func_extern_sigs@),
            func_impls: views(self.func_impls@),
        }
    }
}

/// The bridge declarations of a schema, in the order of its methods.
pub open spec fn bridge_of(s: SchemaView) -> RsCxxBridgeView {
    RsCxxBridgeView {
        func_extern_sigs: Seq::new(
            s.methods.len(),
            |i: int| extern_sig_of(s.module_name, s.methods[i]),
        ),
        func_impls: Seq::new(s.methods.len(), |i: int| bridge_impl_of(s.module_name, s.methods[i])),
    }
}

/// One line of the conversion of an alias: the property is copied.
pub open spec fn field_line_of(name: Seq<char>) -> Seq<char> {
    "            "@ + snake_case_of(name) + ": value."@ + snake_case_of(name) + ".clone(),"@
}

/// The conversion of an alias from the handle by which it crosses the
/// bridge.
pub open spec fn alias_impl_of(a: AliasView) -> Seq<char> {
    "impl From<&"@ + a.name + "> for "@ + a.name + " {\n    fn from(value: &"@ + a.name
        + ") -> Self {\n        "@ + a.name + " {\n"@ + join(
        Seq::new(a.properties.len(), |i: int| field_line_of(a.properties[i].name)),
        "\n"@,
    ) + "\n        }\n    }\n}"@
}

/// One line of the conversion of an enum: the member gives its literal.
pub open spec fn member_line_of(e: Seq<char>, name: Seq<char>, value: Seq<char>) -> Seq<char> {
    "            "@ + e + "::"@ + pascal_case_of(name) + " => \""@ + value + "\","@
}

/// The conversion of an enum to the literal by which it crosses the bridge.
pub open spec fn enum_impl_of(e: EnumView) -> Seq<char> {
    "impl "@ + e.name + " {\n    pub fn literal(&self) -> &'static str {\n        match self {\n"@
        + join(
        Seq::new(
            e.members.len(),
            |i: int| member_line_of(e.name, e.members[i].name, e.members[i].value),
        ),
        "\n"@,
    ) + "\n        }\n    }\n}"@
}

/// The conversion code of the named type with number `t`.
pub open spec fn type_impl_of(s: SchemaView, t: int) -> Seq<char> {
    if t < s.enums.len() {
        enum_impl_of(s.enums[t])
    } else {
        alias_impl_of(s.aliases[t - s.enums.len()])
    }
}

/// The conversion code of every named type, each with the type's name, in
/// the order of the names.
pub open spec fn type_impls_of(s: SchemaView) -> Seq<(Seq<char>, Seq<char>)> {
    Seq::new(s.by_name.len(), |k: int| (s.name_of(s.by_name[k]), type_impl_of(s, s.by_name[k])))
}

/// The texts of a list of pairs of strings.
pub open spec fn pair_views(list: Seq<(String, String)>) -> Seq<(Seq<char>, Seq<char>)> {
    Seq::new(list.len(), |i: int| (list[i].0@, list[i].1@))
}

fn primitive_name(k: PrimitiveKind) -> (out: &'static str)
    ensures
        out@ == primitive_rs(k),
{
    match k {
        PrimitiveKind::Boolean => "bool",
        PrimitiveKind::Number => "f64",
        PrimitiveKind::String => "String",
        PrimitiveKind::Void => "()",
    }
}

fn value_name(t: &TypeAnnotation) -> (out: String)
    ensures
        out@ == value_rs(t@),
{
    match t {
        TypeAnnotation::Primitive(k) => String::from_str(primitive_name(*k)),
        TypeAnnotation::ObjectAlias(a) => {
            assert(t@ == TypeView::ObjectAlias(a@));
            a.name.clone()
        },
        TypeAnnotation::EnumAlias(e) => {
            assert(t@ == TypeView::EnumAlias(e@));
            e.name.clone()
        },
        _ => String::new(),
    }
}

/// The word for a type inside the name of its nullable wrapper.
pub fn label(t: &TypeAnnotation) -> (out: String)
    ensures
        out@ == label_of(t@),
{
    match t {
        TypeAnnotation::Primitive(k) => match k {
            PrimitiveKind::Boolean => String::from_str("Boolean"),
            PrimitiveKind::Number => String::from_str("Number"),
            PrimitiveKind::String => String::from_str("String"),
            PrimitiveKind::Void => String::from_str("Void"),
        },
        TypeAnnotation::ObjectAlias(a) => {
            assert(t@ == TypeView::ObjectAlias(a@));
            a.name.clone()
        },
        TypeAnnotation::EnumAlias(e) => {
            assert(t@ == TypeView::EnumAlias(e@));
            e.name.clone()
        },
        _ => String::new(),
    }
}

/// The type of a parameter or result, on the trait or on the bridge.
pub fn render_type(t: &TypeAnnotation, bridged: bool) -> (out: String)
    ensures
        out@ == type_text(t@, bridged),
{
    match t {
        TypeAnnotation::Nullable(inner) => {
            assert(t@ == TypeView::Nullable(Box::new(inner@)));
            if bridged {
                let mut out = String::from_str("Nullable");
                out.append(label(inner).as_str());
                out
            } else {
                let mut out = String::from_str("Option<");
                out.append(value_name(inner).as_str());
                out.append(">");
                out
            }
        },
        _ => value_name(t),
    }
}

/// The type of a parameter, on the trait or on the bridge.
pub fn render_param_type(t: &TypeAnnotation, bridged: bool) -> (out: String)
    ensures
        out@ == param_type_text(t@, bridged),
{
    match t {
        TypeAnnotation::ObjectAlias(a) => {
            assert(t@ == TypeView::ObjectAlias(a@));
            if bridged {
                let mut out = String::from_str("&");
                out.append(render_type(t, bridged).as_str());
                out
            } else {
                render_type(t, bridged)
            }
        },
        _ => render_type(t, bridged),
    }
}

/// The parameters of a function type, separated by commas.
pub fn render_params(params: &Vec<Param>, bridged: bool) -> (out: String)
    ensures
        out@ == params_text(Seq::new(params.len() as nat, |i: int| params[i]@), bridged),
{
    let ghost pv = Seq::new(params.len() as nat, |i: int| params[i]@);
    let ghost target = Seq::new(pv.len(), |i: int| param_text(pv[i], bridged));
    let mut parts: Vec<String> = Vec::new();
    let mut i: usize = 0;
    while i < params.len()
        invariant
            i <= params.len(),
            pv == Seq::new(params.len() as nat, |k: int| params[k]@),
            target == Seq::new(pv.len(), |k: int| param_text(pv[k], bridged)),
            views(parts@) == target.take(i as int),
        decreases params.len() - i,
    {
        let mut part = snake_case(params[i].name.as_str());
        part.append(": ");
        part.append(render_param_type(&params[i].type_annotation, bridged).as_str());
        proof {
            lemma_views_push(parts@, part);
            assert(target.take(i + 1) == target.take(i as int).push(target[i as int]));
        }
        parts.push(part);
        i += 1;
    }
    assert(target.take(params.len() as int) == target);
    join_strings(&parts, ", ")
}

/// The signature of a method in the interface trait.
pub(crate) fn render_impl_sig(method: &Method) -> (out: String)
    requires
        method@.type_annotation is Function,
    ensures
        out@ == impl_sig_of(method@),
{
    match &method.type_annotation {
        TypeAnnotation::Function { params, return_type } => {
            proof {
                lemma_function_view(method.type_annotation);
                assert(method@.type_annotation->params =~= Seq::new(
                    params.len() as nat,
                    |i: int| params[i]@,
                ));
            }
            let mut out = String::from_str("fn ");
            out.append(snake_case(method.name.as_str()).as_str());
            out.append("(");
            out.append(render_params(params, false).as_str());
            out.append(") -> ");
            out.append(render_type(return_type, false).as_str());
            out
        },
        _ => String::new(),
    }
}

/// The name of the interface trait of the module.
pub fn trait_name(module_name: &String) -> (out: String)
    ensures
        out@ == trait_name_of(module_name@),
{
    let mut full = module_name.clone();
    full.append("Spec");
    pascal_case(full.as_str())
}

/// The interface trait of a schema in which every method has a function
/// type.
pub(crate) fn render_spec_code(schema: &Schema) -> (out: String)
    requires
        well_formed(schema@),
    ensures
        out@ == spec_code_of(schema@),
{
    let methods = schema.methods();
    let ghost target = Seq::new(schema@.methods.len(), |i: int| spec_line_of(schema@.methods[i]));
    let mut lines: Vec<String> = Vec::new();
    let mut i: usize = 0;
    while i < methods.len()
        invariant
            i <= methods.len(),
            well_formed(schema@),
            method_views(methods@) == schema@.methods,
            target == Seq::new(schema@.methods.len(), |k: int| spec_line_of(schema@.methods[k])),
            views(lines@) == target.take(i as int),
        decreases methods.len() - i,
    {
        assert(schema@.methods[i as int] == methods[i as int]@);
        assert(signature_ok(schema@.methods[i as int].type_annotation));
        let mut line = String::from_str("    ");
        line.append(render_impl_sig(&methods[i]).as_str());
        line.append(";");
        proof {
            lemma_views_push(lines@, line);
            assert(target.take(i + 1) == target.take(i as int).push(target[i as int]));
        }
        lines.push(line);
        i += 1;
    }
    assert(target.take(methods.len() as int) == target);
    let mut out = String::from_str("pub trait ");
    out.append(trait_name(schema.module_name()).as_str());
    out.append(" {\n");
    out.append(join_strings(&lines, "\n").as_str());
    out.append("\n}");
    out
}

/// The stub implementation of a schema in which every method has a
/// function type.
pub(crate) fn render_impl_code(schema: &Schema) -> (out: String)
    requires
        well_formed(schema@),
    ensures
        out@ == impl_code_of(schema@),
{
    let methods = schema.methods();
    let ghost target = Seq::new(schema@.methods.len(), |i: int| stub_of(schema@.methods[i]));
    let mut stubs: Vec<String> = Vec::new();
    let mut i: usize = 0;
    while i < methods.len()
        invariant
            i <= methods.len(),
            well_formed(schema@),
            method_views(methods@) == schema@.methods,
            target == Seq::new(schema@.methods.len(), |k: int| stub_of(schema@.methods[k])),
            views(stubs@) == target.take(i as int),
        decreases methods.len() - i,
    {
        assert(schema@.methods[i as int] == methods[i as int]@);
        assert(signature_ok(schema@.methods[i as int].type_annotation));
        let mut stub = String::from_str("    ");
        stub.append(render_impl_sig(&methods[i]).as_str());
        stub.append(" {\n        unimplemented!();\n    }");
        proof {
            lemma_views_push(stubs@, stub);
            assert(target.take(i + 1) == target.take(i as int).push(target[i as int]));
        }
        stubs.push(stub);
        i += 1;
    }
    assert(target.take(methods.len() as int) == target);
    let module = pascal_case(schema.module_name().as_str());
    let mut out = String::from_str("use crate::{ffi::");
    out.append(snake_case(schema.module_name().as_str()).as_str());
    out.append("::*, generated::*};\n\npub struct ");
    out.append(module.as_str());
    out.append(";\n\nimpl ");
    out.append(trait_name(schema.module_name()).as_str());
    out.append(" for ");
    out.append(module.as_str());
    out.append(" {\n");
    out.append(join_strings(&stubs, "\n\n").as_str());
    out.append("\n}");
    out
}

/// The arguments with which a bridge function calls the module's method.
fn render_args(params: &Vec<Param>) -> (out: String)
    ensures
        out@ == args_text(Seq::new(params.len() as nat, |i: int| params[i]@)),
{
    let ghost pv = Seq::new(params.len() as nat, |i: int| params[i]@);
    let ghost target = Seq::new(pv.len(), |i: int| snake_case_of(pv[i].name) + ".into()"@);
    let mut parts: Vec<String> = Vec::new();
    let mut i: usize = 0;
    while i < params.len()
        invariant
            i <= params.len(),
            pv == Seq::new(params.len() as nat, |k: int| params[k]@),
            target == Seq::new(pv.len(), |k: int| snake_case_of(pv[k].name) + ".into()"@),
            views(parts@) == target.take(i as int),
        decreases params.len() - i,
    {
        let mut part = snake_case(params[i].name.as_str());
        part.append(".into()");
        proof {
            lemma_views_push(parts@, part);
            assert(target.take(i + 1) == target.take(i as int).push(target[i as int]));
        }
        parts.push(part);
        i += 1;
    }
    assert(target.take(params.len() as int) == target);
    join_strings(&parts, ", ")
}

/// The name of the bridge function of a method.
pub fn bridge_fn_name(module_name: &String, method: &Method) -> (out: String)
    ensures
        out@ == bridge_fn_name_of(module_name@, method@),
{
    let mut out = snake_case(module_name.as_str());
    out.append("_");
    out.append(snake_case(method.name.as_str()).as_str());
    out
}

/// The declaration of a method's bridge function.
pub(crate) fn render_extern_sig(module_name: &String, method: &Method) -> (out: String)
    requires
        method@.type_annotation is Function,
    ensures
        out@ == extern_sig_of(module_name@, method@),
{
    match &method.type_annotation {
        TypeAnnotation::Function { params, return_type } => {
            proof {
                lemma_function_view(method.type_annotation);
                assert(method@.type_annotation->params =~= Seq::new(
                    params.len() as nat,
                    |i: int| params[i]@,
                ));
            }
            let mut out = String::from_str("#[cxx_name = \"");
            out.append(method.name.as_str());
            out.append("\"]\nfn ");
            out.append(bridge_fn_name(module_name, method).as_str());
            out.append("(");
            out.append(render_params(params, true).as_str());
            out.append(") -> ");
            out.append(render_type(return_type, true).as_str());
            out.append(";");
            out
        },
        _ => String::new(),
    }
}

/// The bridge function of a method.
pub(crate) fn render_bridge_impl(module_name: &String, method: &Method) -> (out: String)
    requires
        method@.type_annotation is Function,
    ensures
        out@ == bridge_impl_of(module_name@, method@),
{
    match &method.type_annotation {
        TypeAnnotation::Function { params, return_type } => {
            proof {
                lemma_function_view(method.type_annotation);
                assert(method@.type_annotation->params =~= Seq::new(
                    params.len() as nat,
                    |i: int| params[i]@,
                ));
            }
            let mut out = String::from_str("fn ");
            out.append(bridge_fn_name(module_name, method).as_str());
            out.append("(");
            out.append(render_params(params, true).as_str());
            out.append(") -> ");
            out.append(render_type(return_type, true).as_str());
            out.append(" {\n    ");
            out.append(pascal_case(module_name.as_str()).as_str());
            out.append("::");
            out.append(snake_case(method.name.as_str()).as_str());
            out.append("(");
            out.append(render_args(params).as_str());
            out.append(").into()\n}");
            out
        },
        _ => String::new(),
    }
}

/// The bridge declarations of a schema in which every method has a
/// function type.
pub(crate) fn render_bridge(schema: &Schema) -> (out: RsCxxBridge)
    requires
        well_formed(schema@),
    ensures
        out@ == bridge_of(schema@),
{
    let methods = schema.methods();
    let module_name = schema.module_name();
    let ghost sigs = Seq::new(
        schema@.methods.len(),
        |i: int| extern_sig_of(schema@.module_name, schema@.methods[i]),
    );
    let ghost impls = Seq::new(
        schema@.methods.len(),
        |i: int| bridge_impl_of(schema@.module_name, schema@.methods[i]),
    );
    let mut func_extern_sigs: Vec<String> = Vec::new();
    let mut func_impls: Vec<String> = Vec::new();
    let mut i: usize = 0;
    while i < methods.len()
        invariant
            i <= methods.len(),
            well_formed(schema@),
            method_views(methods@) == schema@.methods,
            module_name@ == schema@.module_name,
            sigs == Seq::new(
                schema@.methods.len(),
                |k: int| extern_sig_of(schema@.module_name, schema@.methods[k]),
            ),
            impls == Seq::new(
                schema@.methods.len(),
                |k: int| bridge_impl_of(schema@.module_name, schema@.methods[k]),
            ),
            views(func_extern_sigs@) == sigs.take(i as int),
            views(func_impls@) == impls.take(i as int),
        decreases methods.len() - i,
    {
        assert(schema@.methods[i as int] == methods[i as int]@);
        assert(signature_ok(schema@.methods[i as int].type_annotation));
        let sig = render_extern_sig(module_name, &methods[i]);
        let body = render_bridge_impl(module_name, &methods[i]);
        proof {
            lemma_views_push(func_extern_sigs@, sig);
            lemma_views_push(func_impls@, body);
            assert(sigs.take(i + 1) == sigs.take(i as int).push(sigs[i as int]));
            assert(impls.take(i + 1) == impls.take(i as int).push(impls[i as int]));
        }
        func_extern_sigs.push(sig);
        func_impls.push(body);
        i += 1;
    }
    assert(sigs.take(methods.len() as int) == sigs);
    assert(impls.take(methods.len() as int) == impls);
    RsCxxBridge { func_extern_sigs, func_impls }
}

/// The conversion of an alias.
pub fn render_alias_impl(a: &ObjectAlias) -> (out: String)
    ensures
        out@ == alias_impl_of(a@),
{
    proof {
        lemma_alias_view(*a);
    }
    let ghost target = Seq::new(a@.properties.len(), |i: int| field_line_of(a@.properties[i].name));
    let mut lines: Vec<String> = Vec::new();
    let mut i: usize = 0;
    while i < a.properties.len()
        invariant
            i <= a.properties.len(),
            a@.properties.len() == a.properties.len(),
            forall|k: int|
                0 <= k < a.properties.len() ==> (#[trigger] a@.properties[k]).name
                    == a.properties[k].name@,
            target == Seq::new(a@.properties.len(), |k: int| field_line_of(a@.properties[k].name)),
            views(lines@) == target.take(i as int),
        decreases a.properties.len() - i,
    {
        let field = snake_case(a.properties[i].name.as_str());
        let mut line = String::from_str("            ");
        line.append(field.as_str());
        line.append(": value.");
        line.append(field.as_str());
        line.append(".clone(),");
        proof {
            assert(a@.properties[i as int].name == a.properties[i as int].name@);
            lemma_views_push(lines@, line);
            assert(target.take(i + 1) == target.take(i as int).push(target[i as int]));
        }
        lines.push(line);
        i += 1;
    }
    assert(target.take(a.properties.len() as int) == target);
    let mut out = String::from_str("impl From<&");
    out.append(a.name.as_str());
    out.append("> for ");
    out.append(a.name.as_str());
    out.append(" {\n    fn from(value: &");
    out.append(a.name.as_str());
    out.append(") -> Self {\n        ");
    out.append(a.name.as_str());
    out.append(" {\n");
    out.append(join_strings(&lines, "\n").as_str());
    out.append("\n        }\n    }\n}");
    out
}

/// The conversion of an enum.
pub fn render_enum_impl(e: &EnumAlias) -> (out: String)
    ensures
        out@ == enum_impl_of(e@),
{
    let ghost target = Seq::new(
        e@.members.len(),
        |i: int| member_line_of(e@.name, e@.members[i].name, e@.members[i].value),
    );
    let mut lines: Vec<String> = Vec::new();
    let mut i: usize = 0;
    while i < e.members.len()
        invariant
            i <= e.members.len(),
            target == Seq::new(
                e@.members.len(),
                |k: int| member_line_of(e@.name, e@.members[k].name, e@.members[k].value),
            ),
            views(lines@) == target.take(i as int),
        decreases e.members.len() - i,
    {
        let mut line = String::from_str("            ");
        line.append(e.name.as_str());
        line.append("::");
        line.append(pascal_case(e.members[i].name.as_str()).as_str());
        line.append(" => \"");
        line.append(e.members[i].value.as_str());
        line.append("\",");
        proof {
            lemma_views_push(lines@, line);
            assert(target.take(i + 1) == target.take(i as int).push(target[i as int]));
        }
        lines.push(line);
        i += 1;
    }
    assert(target.take(e.members.len() as int) == target);
    let mut out = String::from_str("impl ");
    out.append(e.name.as_str());
    out.append(" {\n    pub fn literal(&self) -> &'static str {\n        match self {\n");
    out.append(join_strings(&lines, "\n").as_str());
    out.append("\n        }\n    }\n}");
    out
}

/// The conversion code of every named type of the schema, each with the
/// type's name, in the order of the names.
pub fn render_type_impls(schema: &Schema) -> (out: Vec<(String, String)>)
    ensures
        pair_views(out@) == type_impls_of(schema@),
{
    let by_name = schema.types_by_name();
    let enums = schema.enums();
    let aliases = schema.aliases();
    let ghost target = type_impls_of(schema@);
    let mut out: Vec<(String, String)> = Vec::new();
    let mut k: usize = 0;
    while k < by_name.len()
        invariant
            k <= by_name.len(),
            schema@.wf(),
            index_view(by_name@) == schema@.by_name,
            enum_views(enums@) == schema@.enums,
            alias_views(aliases@) == schema@.aliases,
            target == type_impls_of(schema@),
            pair_views(out@) == target.take(k as int),
        decreases by_name.len() - k,
    {
        let t = by_name[k];
        assert(schema@.by_name[k as int] == t);
        assert(0 <= schema@.by_name[k as int] < schema@.type_count());
        let entry = if t < enums.len() {
            assert(schema@.enums[t as int] == enums[t as int]@);
            (enums[t].name.clone(), render_enum_impl(&enums[t]))
        } else {
            assert(schema@.aliases[t - enums.len()] == aliases[t - enums.len()]@);
            proof {
                lemma_alias_view(aliases[t - enums.len()]);
            }
            (aliases[t - enums.len()].name.clone(), render_alias_impl(&aliases[t - enums.len()]))
        };
        proof {
            assert(pair_views(out@.push(entry)) =~= pair_views(out@).push((entry.0@, entry.1@)));
            assert(target.take(k + 1) == target.take(k as int).push(target[k as int]));
        }
        out.push(entry);
        k += 1;
    }
    assert(target.take(by_name.len() as int) == target);
    out
}

} // verus!
